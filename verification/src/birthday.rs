//! Traversal of two NATs that both allocate ports at random: many sockets on
//! one side, many dials from the other.
use vstd::prelude::*;
use vstd::string::StringExecFns;

use crate::net::{IpAddr, Ipv4Addr, SocketAddr};
use crate::random::random_between;
use crate::stun::StunConfig;
use crate::time::Duration;

verus! {

broadcast use vstd::string::group_string_axioms;

#[derive(Debug, Clone)]
pub struct BirthdayConfig {
    /// Sockets that the acceptor opens.
    pub acceptor_ports: u16,
    /// Connection attempts that the dialer makes.
    pub dialer_probes: u16,
    /// Milliseconds between two attempts.
    pub probe_interval_ms: u16,
    pub timeout: Duration,
    pub stun_config: StunConfig,
}

impl Default for BirthdayConfig {
    fn default() -> (r: Self)
        ensures
            r.acceptor_ports == 32,
            r.dialer_probes == 128,
            r.probe_interval_ms == 20,
            r.timeout.nanos == 8_000_000_000,
            r.stun_config.timeout.nanos == 2_000_000_000,
            crate::stun::texts(r.stun_config.servers@) == seq!["stun.l.google.com:19302"@],
    {
        let mut servers: Vec<String> = Vec::new();
        servers.push(String::from_str("stun.l.google.com:19302"));
        assert(crate::stun::texts(servers@) =~= seq!["stun.l.google.com:19302"@]);
        BirthdayConfig {
            acceptor_ports: 32,
            dialer_probes: 128,
            probe_interval_ms: 20,
            timeout: Duration::from_secs(8),
            stun_config: StunConfig { servers, timeout: Duration::from_secs(2) },
        }
    }
}

/// A socket's local port and the external port that it is seen under.
#[derive(Debug, Clone, Copy, PartialEq, Eq, Structural)]
pub struct PortMapping {
    pub local_port: u16,
    pub external_port: u16,
}

/// What the acceptor has opened.
#[derive(Debug, Clone)]
pub struct AcceptorPorts {
    /// External IPv4 address, as the first probe that tells of one has it.
    pub external_ip: Option<Ipv4Addr>,
    pub ports: Vec<PortMapping>,
    /// Sockets that were to be opened.
    pub attempted: u16,
    /// Probes that succeeded.
    pub succeeded: u16,
}

/// The mappings of the probes that succeeded, in order.
pub open spec fn mappings(probes: Seq<(u16, Option<SocketAddr>)>) -> Seq<PortMapping>
    decreases probes.len(),
{
    if probes.len() == 0 {
        Seq::empty()
    } else {
        match probes.last().1 {
            Some(ext) => mappings(probes.drop_last()).push(
                PortMapping { local_port: probes.last().0, external_port: ext.spec_port() },
            ),
            None => mappings(probes.drop_last()),
        }
    }
}

/// The IPv4 address that the first probe to observe one observed.
pub open spec fn first_external(probes: Seq<(u16, Option<SocketAddr>)>) -> Option<Ipv4Addr>
    decreases probes.len(),
{
    if probes.len() == 0 {
        None
    } else {
        match first_external(probes.drop_last()) {
            Some(ip) => Some(ip),
            None => match probes.last().1 {
                Some(SocketAddr::V4 { ip, .. }) => Some(ip),
                _ => None,
            },
        }
    }
}

/// Sums up the sockets that could be opened: the local port of each, and the
/// address that a probe from it observed.
pub fn acceptor_ports(attempted: u16, probes: &[(u16, Option<SocketAddr>)]) -> (r: AcceptorPorts)
    requires
        probes@.len() <= attempted,
    ensures
        r.attempted == attempted,
        r.ports@ == mappings(probes@),
        r.succeeded == mappings(probes@).len(),
        r.external_ip == first_external(probes@),
{
    let mut ports: Vec<PortMapping> = Vec::new();
    let mut external_ip: Option<Ipv4Addr> = None;
    let mut succeeded: u16 = 0;
    let mut i: usize = 0;
    assert(probes@.take(0) =~= Seq::empty());
    while i < probes.len()
        invariant
            i <= probes@.len() <= attempted,
            ports@ == mappings(probes@.take(i as int)),
            external_ip == first_external(probes@.take(i as int)),
            succeeded == ports@.len(),
            succeeded <= i,
        decreases probes.len() - i,
    {
        proof {
            assert(probes@.take(i + 1).drop_last() =~= probes@.take(i as int));
            assert(probes@.take(i + 1).last() == probes@[i as int]);
        }
        if let Some(ext) = probes[i].1 {
            if external_ip.is_none() {
                if let IpAddr::V4(ip) = ext.ip() {
                    external_ip = Some(ip);
                }
            }
            ports.push(PortMapping { local_port: probes[i].0, external_port: ext.port() });
            succeeded += 1;
        }
        i += 1;
    }
    assert(probes@.take(i as int) =~= probes@);
    AcceptorPorts { external_ip, ports, attempted, succeeded }
}

/// One more probe adds its mapping, of its own local port to the port that
/// was observed, where it succeeded, and nothing where it failed.
pub proof fn lemma_mapping_of_each_probe(
    probes: Seq<(u16, Option<SocketAddr>)>,
    local_port: u16,
    observed: SocketAddr,
)
    ensures
        mappings(probes.push((local_port, None))) == mappings(probes),
        mappings(probes.push((local_port, Some(observed)))).len() == mappings(probes).len() + 1,
        mappings(probes.push((local_port, Some(observed)))).drop_last() == mappings(probes),
        mappings(probes.push((local_port, Some(observed)))).last().local_port == local_port,
        mappings(probes.push((local_port, Some(observed)))).last().external_port
            == observed.spec_port(),
{
    assert(probes.push((local_port, None)).drop_last() =~= probes);
    assert(probes.push((local_port, Some(observed))).drop_last() =~= probes);
    assert(mappings(probes.push((local_port, Some(observed)))).drop_last() =~= mappings(probes));
}

/// The external address is that of the first probe that saw one of IPv4.
pub proof fn lemma_first_external(probes: Seq<(u16, Option<SocketAddr>)>)
    ensures
        match first_external(probes) {
            Some(ip) => exists|i: int|
                0 <= i < probes.len() && ((#[trigger] probes[i]).1 matches Some(a) && a is V4
                    && a.spec_ip() == IpAddr::V4(ip)) && (forall|j: int|
                    0 <= j < i ==> !((#[trigger] probes[j]).1 matches Some(a) && a is V4)),
            None => forall|j: int|
                0 <= j < probes.len() ==> !((#[trigger] probes[j]).1 matches Some(a) && a is V4),
        },
    decreases probes.len(),
{
    if probes.len() > 0 {
        let shorter = probes.drop_last();
        let n = shorter.len() as int;
        lemma_first_external(shorter);
        assert(probes[n] == probes.last());
        match first_external(shorter) {
            Some(ip) => {
                let i = choose|i: int|
                    0 <= i < shorter.len() && ((#[trigger] shorter[i]).1 matches Some(a) && a is V4
                        && a.spec_ip() == IpAddr::V4(ip)) && (forall|j: int|
                        0 <= j < i ==> !((#[trigger] shorter[j]).1 matches Some(a) && a is V4));
                assert(probes[i] == shorter[i]);
                assert forall|j: int| 0 <= j < i implies !((
                #[trigger] probes[j]).1 matches Some(a) && a is V4) by {
                    assert(probes[j] == shorter[j]);
                }
            },
            None => {
                assert forall|j: int| 0 <= j < n implies !((
                #[trigger] probes[j]).1 matches Some(a) && a is V4) by {
                    assert(probes[j] == shorter[j]);
                }
            },
        }
    }
}

// ---------------------------------------------------------------------------
// Targets
// ---------------------------------------------------------------------------

pub open spec fn target(ip: Ipv4Addr, port: u16) -> SocketAddr {
    SocketAddr::V4 { ip, port }
}

/// The known ports, in order.
pub open spec fn known_targets(ip: Ipv4Addr, known: Seq<u16>) -> Seq<SocketAddr> {
    known.map_values(|p: u16| target(ip, p))
}

/// The known ports, then each drawn port that is not there yet.
pub open spec fn targets(ip: Ipv4Addr, known: Seq<u16>, draws: Seq<u16>) -> Seq<SocketAddr>
    decreases draws.len(),
{
    if draws.len() == 0 {
        known_targets(ip, known)
    } else {
        let before = targets(ip, known, draws.drop_last());
        if before.contains(target(ip, draws.last())) {
            before
        } else {
            before.push(target(ip, draws.last()))
        }
    }
}

/// How many ports are drawn: what is left of the probes, the count of known
/// ports taken as a 16-bit number.
pub open spec fn draw_count(known: nat, total_probes: u16) -> int {
    if total_probes as int > known % 65536 {
        total_probes - known % 65536
    } else {
        0
    }
}

/// The known ports come first, every target is at the acceptor's address, and
/// no more targets are added than ports were drawn.
pub proof fn lemma_known_first(ip: Ipv4Addr, known: Seq<u16>, draws: Seq<u16>)
    ensures
        known.len() <= targets(ip, known, draws).len() <= known.len() + draws.len(),
        forall|i: int|
            0 <= i < known.len() ==> #[trigger] targets(ip, known, draws)[i] == target(ip, known[i]),
        forall|i: int|
            0 <= i < targets(ip, known, draws).len() ==> (#[trigger] targets(
                ip,
                known,
                draws,
            )[i]).spec_ip() == IpAddr::V4(ip),
    decreases draws.len(),
{
    if draws.len() > 0 {
        lemma_known_first(ip, known, draws.drop_last());
    }
}

/// A target that is not a known port is a port that was drawn.
pub proof fn lemma_rest_is_drawn(ip: Ipv4Addr, known: Seq<u16>, draws: Seq<u16>, i: int)
    requires
        known.len() <= i < targets(ip, known, draws).len(),
    ensures
        draws.contains(targets(ip, known, draws)[i].spec_port()),
    decreases draws.len(),
{
    if draws.len() > 0 {
        let t = targets(ip, known, draws);
        let before = targets(ip, known, draws.drop_last());
        if i < before.len() {
            lemma_rest_is_drawn(ip, known, draws.drop_last(), i);
            let k = choose|k: int|
                0 <= k < draws.drop_last().len() && draws.drop_last()[k] == before[i].spec_port();
            assert(draws[k] == t[i].spec_port());
        } else {
            assert(draws[draws.len() - 1] == t[i].spec_port());
        }
    }
}

/// No target is dialed twice, given that each known port is listed once.
pub proof fn lemma_targets_distinct(ip: Ipv4Addr, known: Seq<u16>, draws: Seq<u16>)
    requires
        known.no_duplicates(),
    ensures
        targets(ip, known, draws).no_duplicates(),
    decreases draws.len(),
{
    if draws.len() > 0 {
        lemma_targets_distinct(ip, known, draws.drop_last());
    } else {
        let t = known_targets(ip, known);
        assert forall|i: int, j: int| 0 <= i < t.len() && 0 <= j < t.len() && i != j implies t[i]
            != t[j] by {
            assert(known[i] != known[j]);
        }
    }
}

/// Every known port and every port that was drawn is dialed.
pub proof fn lemma_every_port_dialed(ip: Ipv4Addr, known: Seq<u16>, draws: Seq<u16>, port: u16)
    requires
        known.contains(port) || draws.contains(port),
    ensures
        targets(ip, known, draws).contains(SocketAddr::V4 { ip, port }),
    decreases draws.len(),
{
    let all = targets(ip, known, draws);
    if known.contains(port) {
        lemma_known_first(ip, known, draws);
        let i = choose|i: int| 0 <= i < known.len() && known[i] == port;
        assert(all[i] == target(ip, port));
    } else {
        let i = choose|i: int| 0 <= i < draws.len() && draws[i] == port;
        let shorter = draws.drop_last();
        let before = targets(ip, known, shorter);
        if i < shorter.len() {
            assert(shorter[i] == port);
            lemma_every_port_dialed(ip, known, shorter, port);
            let k = choose|k: int| 0 <= k < before.len() && before[k] == target(ip, port);
            assert(all[k] == before[k]);
        } else {
            assert(draws.last() == port);
            if !before.contains(target(ip, port)) {
                assert(all[before.len() as int] == target(ip, port));
            }
        }
    }
}

/// Known and drawn ports together make up the probes that are wanted, unless
/// more are known already (and fewer than 65536).
pub proof fn lemma_probes_filled_up(known: nat, total_probes: u16)
    requires
        known < 65536,
    ensures
        known <= total_probes ==> known + draw_count(known, total_probes) == total_probes,
        known > total_probes ==> draw_count(known, total_probes) == 0,
{
}

/// The targets for given drawn ports.
pub fn dialer_targets_from(acceptor_ip: Ipv4Addr, known_ports: &[u16], draws: &[u16]) -> (r: Vec<
    SocketAddr,
>)
    ensures
        r@ == targets(acceptor_ip, known_ports@, draws@),
{
    let mut out: Vec<SocketAddr> = Vec::new();
    let mut i: usize = 0;
    while i < known_ports.len()
        invariant
            i <= known_ports@.len(),
            out@ == known_targets(acceptor_ip, known_ports@).take(i as int),
        decreases known_ports.len() - i,
    {
        out.push(SocketAddr::V4 { ip: acceptor_ip, port: known_ports[i] });
        i += 1;
        assert(out@ =~= known_targets(acceptor_ip, known_ports@).take(i as int));
    }
    proof {
        assert(draws@.take(0) =~= Seq::empty());
        assert(out@ =~= targets(acceptor_ip, known_ports@, draws@.take(0)));
    }
    let mut k: usize = 0;
    while k < draws.len()
        invariant
            k <= draws@.len(),
            out@ == targets(acceptor_ip, known_ports@, draws@.take(k as int)),
        decreases draws.len() - k,
    {
        proof {
            assert(draws@.take(k + 1).drop_last() =~= draws@.take(k as int));
            assert(draws@.take(k + 1).last() == draws@[k as int]);
        }
        let t = SocketAddr::V4 { ip: acceptor_ip, port: draws[k] };
        let mut found = false;
        let mut j: usize = 0;
        while j < out.len()
            invariant
                j <= out@.len(),
                found == exists|m: int| 0 <= m < j && #[trigger] out@[m] == t,
            decreases out.len() - j,
        {
            if out[j] == t {
                found = true;
            }
            j += 1;
        }
        if !found {
            out.push(t);
        }
        k += 1;
    }
    assert(draws@.take(k as int) =~= draws@);
    out
}

/// The targets for the dialer: all known ports, filled up with random ports
/// to `total_probes`.
pub fn generate_dialer_targets(
    acceptor_ip: Ipv4Addr,
    known_ports: &[u16],
    total_probes: u16,
) -> (r: Vec<SocketAddr>)
    ensures
        exists|draws: Seq<u16>|
            {
                &&& draws.len() == draw_count(known_ports@.len(), total_probes)
                &&& forall|i: int| 0 <= i < draws.len() ==> 1024 <= #[trigger] draws[i]
                &&& r@ == #[trigger] targets(acceptor_ip, known_ports@, draws)
            },
{
    let known: u16 = (known_ports.len() % 65536) as u16;
    let remaining: u16 = if total_probes > known {
        total_probes - known
    } else {
        0
    };
    let mut draws: Vec<u16> = Vec::new();
    let mut i: u16 = 0;
    while i < remaining
        invariant
            i <= remaining,
            draws@.len() == i,
            forall|k: int| 0 <= k < draws@.len() ==> 1024 <= #[trigger] draws@[k],
        decreases remaining - i,
    {
        draws.push(random_between(1024, 65535));
        i += 1;
    }
    let r = dialer_targets_from(acceptor_ip, known_ports, draws.as_slice());
    assert(r@ == targets(acceptor_ip, known_ports@, draws@));
    r
}

// ---------------------------------------------------------------------------
// The dialer's spray
// ---------------------------------------------------------------------------

/// What the dialer does next while it still has targets.
#[derive(Debug, Clone, Copy, PartialEq, Eq, Structural)]
pub enum SprayStep {
    /// Dial, and pause before the next target where there is one.
    Dial { target: SocketAddr, then_pause: bool },
    /// Dial no more; wait for the attempts that were begun.
    Wait,
}

/// Decides on target `index`, `elapsed` after the spray began: nothing is
/// dialed once the time is up.
pub fn spray_step(targets: &[SocketAddr], index: usize, elapsed: Duration, timeout: Duration) -> (r:
    SprayStep)
    ensures
        r == if index < targets@.len() && elapsed.nanos < timeout.nanos {
            SprayStep::Dial {
                target: targets@[index as int],
                then_pause: index + 1 < targets@.len(),
            }
        } else {
            SprayStep::Wait
        },
        elapsed.nanos >= timeout.nanos ==> r is Wait,
        r is Wait ==> index >= targets@.len() || elapsed.nanos >= timeout.nanos,
        r matches SprayStep::Dial { then_pause, .. } ==> (!then_pause <==> index
            == targets@.len() - 1),
{
    if index < targets.len() && elapsed.nanos < timeout.nanos {
        SprayStep::Dial { target: targets[index], then_pause: targets.len() - index > 1 }
    } else {
        SprayStep::Wait
    }
}

/// The end of one attempt, or of the wait for it.
#[derive(Debug, Clone, Copy, PartialEq, Eq, Structural)]
pub enum SprayEvent {
    /// The attempt at this target connected.
    Connected(usize),
    /// An attempt failed.
    Failed,
    /// No attempt is left.
    AllEnded,
    TimeUp,
}

/// What the dialer's wait comes to.
#[derive(Debug, Clone, Copy, PartialEq, Eq, Structural)]
pub enum SprayVerdict {
    Hit(usize),
    KeepWaiting,
    GiveUp,
}

/// The first attempt that connects wins; without one the dialer gives up when
/// all have failed or the time is up.
pub fn spray_event(event: SprayEvent) -> (r: SprayVerdict)
    ensures
        r == match event {
            SprayEvent::Connected(index) => SprayVerdict::Hit(index),
            SprayEvent::Failed => SprayVerdict::KeepWaiting,
            SprayEvent::AllEnded => SprayVerdict::GiveUp,
            SprayEvent::TimeUp => SprayVerdict::GiveUp,
        },
{
    match event {
        SprayEvent::Connected(index) => SprayVerdict::Hit(index),
        SprayEvent::Failed => SprayVerdict::KeepWaiting,
        SprayEvent::AllEnded => SprayVerdict::GiveUp,
        SprayEvent::TimeUp => SprayVerdict::GiveUp,
    }
}

} // verus!
