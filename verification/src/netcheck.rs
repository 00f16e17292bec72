//! A picture of the client's network at one point in time.
use vstd::prelude::*;
use vstd::string::StringExecFns;

use crate::net::{v4_text, Ipv4Addr, SocketAddr};
use crate::portmap::{protocol_text, PortMapProtocol};
use crate::proto::opt_text;
use crate::reflect::{
    classify_nat_of_both, nat_class, probes_view, public_addrs, NatProbeResult, NatType, ProbeView,
};
use crate::stun::StunConfig;
use crate::text::push_decimal;
use crate::time::Duration;

verus! {

broadcast use vstd::string::group_string_axioms;

/// Complete network diagnostic report.
#[derive(Debug, Clone)]
pub struct NetcheckReport {
    pub nat_type: NatType,
    /// The address that the probes agree on.
    pub reflexive_addr: Option<String>,
    pub ipv4_reachable: bool,
    pub ipv6_reachable: bool,
    /// Whether the NAT loops back to its own external address; not tested.
    pub hairpin_works: Option<bool>,
    /// The protocol by which a port mapping could be had.
    pub port_mapping: Option<PortMapProtocol>,
    pub relay_latencies: Vec<RelayLatency>,
    /// The relay with the lowest latency.
    pub preferred_relay: Option<String>,
    /// The lowest latency of a STUN server.
    pub stun_latency_ms: Option<u32>,
    pub upnp_available: bool,
    pub pcp_available: bool,
    pub nat_pmp_available: bool,
    pub gateway: Option<String>,
    pub duration_ms: u32,
    pub stun_probes: Vec<NatProbeResult>,
}

/// Latency to a specific relay.
#[derive(Debug, Clone)]
pub struct RelayLatency {
    pub name: String,
    pub addr: String,
    pub rtt_ms: Option<u32>,
    pub error: Option<String>,
}

pub struct LatencyView {
    pub name: Seq<char>,
    pub addr: Seq<char>,
    pub rtt_ms: Option<u32>,
    pub error: Option<Seq<char>>,
}

impl View for RelayLatency {
    type V = LatencyView;

    open spec fn view(&self) -> LatencyView {
        LatencyView {
            name: self.name@,
            addr: self.addr@,
            rtt_ms: self.rtt_ms,
            error: opt_text(self.error),
        }
    }
}

pub open spec fn latencies_view(v: Seq<RelayLatency>) -> Seq<LatencyView> {
    v.map_values(|l: RelayLatency| l@)
}

/// What a check covers.
#[derive(Debug, Clone)]
pub struct NetcheckConfig {
    pub stun_config: StunConfig,
    /// Relays to probe, by name and address.
    pub relays: Vec<(String, SocketAddr)>,
    /// Time for each probe.
    pub timeout: Duration,
    pub test_portmap: bool,
    pub test_ipv6: bool,
    /// Local port for a mapping; zero for none.
    pub local_port: u16,
}

impl Default for NetcheckConfig {
    fn default() -> (r: Self)
        ensures
            crate::stun::texts(r.stun_config.servers@) == crate::stun::default_servers(),
            r.stun_config.timeout.nanos == 3_000_000_000,
            r.relays@.len() == 0,
            r.timeout.nanos == 5_000_000_000,
            r.test_portmap,
            r.test_ipv6,
            r.local_port == 0,
    {
        NetcheckConfig {
            stun_config: StunConfig::default(),
            relays: Vec::new(),
            timeout: Duration::from_secs(5),
            test_portmap: true,
            test_ipv6: true,
            local_port: 0,
        }
    }
}

/// Whether a mapping is to be asked for.
pub fn wants_portmap(enabled: bool, local_port: u16) -> (r: bool)
    ensures
        r == (enabled && local_port != 0),
{
    enabled && local_port != 0
}

/// IPv6 works if a packet could be sent to an IPv6 server, or else at least a
/// socket be bound; without a test it does not.
pub fn ipv6_reachable(enabled: bool, sent: bool, can_bind: bool) -> (r: bool)
    ensures
        r == (enabled && (sent || can_bind)),
        enabled && sent ==> r,
        enabled && can_bind ==> r,
        r ==> enabled,
{
    enabled && (sent || can_bind)
}

/// The row for a probe of a relay.
pub fn relay_latency(name: String, addr: SocketAddr, result: Result<u32, String>) -> (r:
    RelayLatency)
    ensures
        r@ == (LatencyView {
            name: name@,
            addr: crate::net::socket_text(addr),
            rtt_ms: match result {
                Ok(rtt) => Some(rtt),
                Err(_) => None,
            },
            error: match result {
                Ok(_) => None,
                Err(e) => Some(e@),
            },
        }),
{
    match result {
        Ok(rtt) => RelayLatency { name, addr: addr.text(), rtt_ms: Some(rtt), error: None },
        Err(e) => RelayLatency { name, addr: addr.text(), rtt_ms: None, error: Some(e) },
    }
}

// ---------------------------------------------------------------------------
// Order of relays
// ---------------------------------------------------------------------------

pub open spec fn latency_key(l: LatencyView) -> u32 {
    match l.rtt_ms {
        Some(rtt) => rtt,
        None => u32::MAX,
    }
}

/// The order of rows.
pub open spec fn by_latency_key() -> spec_fn(LatencyView) -> u32 {
    |l: LatencyView| latency_key(l)
}

/// The rows by latency, those without one last; equal ones keep their order.
pub open spec fn by_latency(s: Seq<LatencyView>) -> Seq<LatencyView> {
    crate::order::stable_sort(s, by_latency_key())
}

/// Ordering by latency gives an ascending sequence of the same rows.
pub proof fn lemma_by_latency(s: Seq<LatencyView>)
    ensures
        forall|i: int, j: int|
            0 <= i < j < s.len() ==> latency_key(#[trigger] by_latency(s)[i]) <= latency_key(
                #[trigger] by_latency(s)[j],
            ),
        by_latency(s).to_multiset() == s.to_multiset(),
        by_latency(s).len() == s.len(),
{
    crate::order::lemma_stable_sort(s, by_latency_key());
}

pub open spec fn has_latency_key(k: u32) -> spec_fn(LatencyView) -> bool {
    |l: LatencyView| latency_key(l) == k
}

/// The rows with key `k`, in the order in which they stand.
pub open spec fn with_latency_key(s: Seq<LatencyView>, k: u32) -> Seq<LatencyView> {
    s.filter(has_latency_key(k))
}

/// Rows with one latency, and those without one, keep their order.
pub proof fn lemma_equal_latencies_keep_order(s: Seq<LatencyView>, k: u32)
    ensures
        with_latency_key(by_latency(s), k) == with_latency_key(s, k),
{
    crate::order::lemma_equal_keys_keep_order(s, by_latency_key(), k);
    assert(has_latency_key(k) =~= crate::order::has_key(by_latency_key(), k));
}

/// Of two rows in order, where the later one has a latency, so has the
/// earlier one, and it is no longer (but for the longest latency there is,
/// which counts as none).
pub proof fn lemma_latencies_ascend(s: Seq<LatencyView>, i: int, j: int)
    requires
        0 <= i < j < s.len(),
        by_latency(s)[j].rtt_ms is Some,
        by_latency(s)[j].rtt_ms->0 < u32::MAX,
    ensures
        by_latency(s)[i].rtt_ms is Some,
        by_latency(s)[i].rtt_ms->0 <= by_latency(s)[j].rtt_ms->0,
{
    lemma_by_latency(s);
}

impl crate::order::Keyed for RelayLatency {
    open spec fn by_key() -> spec_fn(LatencyView) -> u32 {
        by_latency_key()
    }

    fn sort_key(&self) -> (r: u32) {
        match self.rtt_ms {
            Some(rtt) => rtt,
            None => u32::MAX,
        }
    }
}

/// Orders rows by latency.
pub fn sort_latencies(rows: Vec<RelayLatency>) -> (r: Vec<RelayLatency>)
    ensures
        latencies_view(r@) == by_latency(latencies_view(rows@)),
{
    let ghost before = rows@;
    let r = crate::order::sort_rows(rows);
    proof {
        assert(crate::order::views(before) =~= latencies_view(before));
        assert(crate::order::views(r@) =~= latencies_view(r@));
    }
    r
}

// ---------------------------------------------------------------------------
// The report
// ---------------------------------------------------------------------------

/// `i` is the first row with the lowest latency.
pub open spec fn is_fastest(rows: Seq<LatencyView>, i: int) -> bool {
    &&& 0 <= i < rows.len()
    &&& rows[i].rtt_ms is Some
    &&& forall|j: int|
        0 <= j < rows.len() && (#[trigger] rows[j]).rtt_ms is Some ==> rows[i].rtt_ms->0
            <= rows[j].rtt_ms->0
    &&& forall|j: int|
        0 <= j < i && (#[trigger] rows[j]).rtt_ms is Some ==> rows[i].rtt_ms->0
            < rows[j].rtt_ms->0
}

/// The lowest latency of the probes that have one.
pub open spec fn is_min_latency(probes: Seq<ProbeView>, m: Option<u32>) -> bool {
    match m {
        Some(v) => {
            &&& exists|i: int| 0 <= i < probes.len() && (#[trigger] probes[i]).latency_ms == Some(v)
            &&& forall|i: int|
                0 <= i < probes.len() && (#[trigger] probes[i]).latency_ms is Some ==> v
                    <= probes[i].latency_ms->0
        },
        None => forall|i: int| 0 <= i < probes.len() ==> (#[trigger] probes[i]).latency_ms is None,
    }
}

/// Puts the results of all probes together. The NAT is judged by what the STUN
/// servers and the relays saw.
pub fn build_report(
    stun_probes: Vec<NatProbeResult>,
    relay_probes: &[NatProbeResult],
    relay_latencies: Vec<RelayLatency>,
    port_mapping: Option<PortMapProtocol>,
    gateway: Option<Ipv4Addr>,
    ipv6_reachable: bool,
    duration_ms: u32,
) -> (r: NetcheckReport)
    ensures
        (r.nat_type, opt_text(r.reflexive_addr)) == nat_class(
            public_addrs(probes_view(stun_probes@) + probes_view(relay_probes@)),
        ),
        r.ipv4_reachable == exists|i: int|
            0 <= i < stun_probes@.len() && (#[trigger] stun_probes@[i]).observed_addr is Some,
        r.ipv6_reachable == ipv6_reachable,
        r.hairpin_works is None,
        r.port_mapping == port_mapping,
        r.relay_latencies == relay_latencies,
        match r.preferred_relay {
            Some(name) => exists|i: int|
                #[trigger] is_fastest(latencies_view(relay_latencies@), i) && name@
                    == relay_latencies@[i].name@,
            None => forall|i: int|
                0 <= i < relay_latencies@.len() ==> (#[trigger] relay_latencies@[i]).rtt_ms is None,
        },
        is_min_latency(probes_view(stun_probes@), r.stun_latency_ms),
        r.nat_pmp_available == (port_mapping == Some(PortMapProtocol::NatPmp)),
        r.pcp_available == (port_mapping == Some(PortMapProtocol::Pcp)),
        r.upnp_available == (port_mapping == Some(PortMapProtocol::UPnP)),
        opt_text(r.gateway) == (match gateway {
            Some(ip) => Some(v4_text(ip)),
            None => None,
        }),
        r.duration_ms == duration_ms,
        r.stun_probes == stun_probes,
{
    let (nat_type, reflexive_addr) = classify_nat_of_both(stun_probes.as_slice(), relay_probes);
    let ghost pv = probes_view(stun_probes@);
    let mut stun_latency_ms: Option<u32> = None;
    let mut ipv4_reachable = false;
    let mut i: usize = 0;
    while i < stun_probes.len()
        invariant
            i <= stun_probes@.len(),
            pv == probes_view(stun_probes@),
            is_min_latency(pv.take(i as int), stun_latency_ms),
            ipv4_reachable == exists|k: int|
                0 <= k < i && (#[trigger] stun_probes@[k]).observed_addr is Some,
        decreases stun_probes.len() - i,
    {
        let ghost before = stun_latency_ms;
        if let Some(ms) = stun_probes[i].latency_ms {
            stun_latency_ms = match stun_latency_ms {
                Some(m) => if ms < m {
                    Some(ms)
                } else {
                    Some(m)
                },
                None => Some(ms),
            };
        }
        if stun_probes[i].observed_addr.is_some() {
            ipv4_reachable = true;
        }
        proof {
            let old_take = pv.take(i as int);
            let new_take = pv.take(i + 1);
            assert(new_take[i as int] == stun_probes@[i as int]@);
            assert forall|k: int| 0 <= k < i implies new_take[k] == #[trigger] old_take[k] by {}
            if before is Some {
                let k = choose|k: int|
                    0 <= k < old_take.len() && (#[trigger] old_take[k]).latency_ms == before;
                assert(new_take[k].latency_ms == before);
            }
            assert forall|k: int|
                0 <= k < new_take.len() && (#[trigger] new_take[k]).latency_ms is Some implies
                stun_latency_ms is Some && stun_latency_ms->0 <= new_take[k].latency_ms->0 by {
                if k < i {
                    assert(old_take[k] == new_take[k]);
                }
            }
        }
        i += 1;
    }
    assert(pv.take(i as int) =~= pv);
    let ghost lv = latencies_view(relay_latencies@);
    let mut best: Option<usize> = None;
    let mut k: usize = 0;
    while k < relay_latencies.len()
        invariant
            k <= relay_latencies@.len(),
            lv == latencies_view(relay_latencies@),
            match best {
                Some(b) => b < k && is_fastest(lv.take(k as int), b as int),
                None => forall|j: int| 0 <= j < k ==> (#[trigger] lv[j]).rtt_ms is None,
            },
        decreases relay_latencies.len() - k,
    {
        let ghost before = best;
        if let Some(rtt) = relay_latencies[k].rtt_ms {
            best = match best {
                Some(b) => match relay_latencies[b].rtt_ms {
                    Some(m) => if rtt < m {
                        Some(k)
                    } else {
                        Some(b)
                    },
                    None => Some(k),
                },
                None => Some(k),
            };
        }
        proof {
            let old_take = lv.take(k as int);
            let new_take = lv.take(k + 1);
            assert(lv[k as int] == relay_latencies@[k as int]@);
            assert forall|j: int| 0 <= j < k implies new_take[j] == #[trigger] lv[j] && old_take[j]
                == lv[j] by {}
            assert(new_take[k as int] == lv[k as int]);
            if let Some(b) = before {
                assert(old_take[b as int] == lv[b as int]);
                assert(lv[b as int] == relay_latencies@[b as int]@);
                assert forall|j: int|
                    0 <= j < k && (#[trigger] new_take[j]).rtt_ms is Some implies lv[b as int].rtt_ms->0
                    <= new_take[j].rtt_ms->0 && (j < b ==> lv[b as int].rtt_ms->0
                    < new_take[j].rtt_ms->0) by {
                    assert(old_take[j] == new_take[j]);
                }
            } else {
                assert forall|j: int| 0 <= j < k implies (#[trigger] new_take[j]).rtt_ms is None by {
                    assert(new_take[j] == lv[j]);
                }
            }
            if let Some(b) = best {
                assert(is_fastest(new_take, b as int));
            }
        }
        k += 1;
    }
    assert(lv.take(k as int) =~= lv);
    let preferred_relay = match best {
        Some(b) => {
            assert(is_fastest(lv, b as int));
            Some(relay_latencies[b].name.clone())
        },
        None => {
            assert forall|j: int| 0 <= j < relay_latencies@.len() implies (
            #[trigger] relay_latencies@[j]).rtt_ms is None by {
                assert(lv[j] == relay_latencies@[j]@);
            }
            None
        },
    };
    let gateway_text = match gateway {
        Some(ip) => Some(ip.text()),
        None => None,
    };
    NetcheckReport {
        nat_type,
        reflexive_addr,
        ipv4_reachable,
        ipv6_reachable,
        hairpin_works: None,
        port_mapping,
        relay_latencies,
        preferred_relay,
        stun_latency_ms,
        upnp_available: port_mapping == Some(PortMapProtocol::UPnP),
        pcp_available: port_mapping == Some(PortMapProtocol::Pcp),
        nat_pmp_available: port_mapping == Some(PortMapProtocol::NatPmp),
        gateway: gateway_text,
        duration_ms,
        stun_probes,
    }
}

pub open spec fn nat_type_text(t: NatType) -> Seq<char> {
    match t {
        NatType::Cone => "Cone"@,
        NatType::SymmetricPort => "SymmetricPort"@,
        NatType::Multiple => "Multiple"@,
        NatType::Unknown => "Unknown"@,
    }
}

pub open spec fn yes_no(b: bool) -> Seq<char> {
    if b {
        "yes"@
    } else {
        "no"@
    }
}

pub open spec fn or_text(t: Option<Seq<char>>, default: Seq<char>) -> Seq<char> {
    match t {
        Some(t) => t,
        None => default,
    }
}

pub open spec fn ms_text(ms: Option<u32>) -> Seq<char> {
    match ms {
        Some(v) => crate::text::decimal(v as nat),
        None => "-"@,
    }
}

pub open spec fn error_text(e: Option<Seq<char>>) -> Seq<char> {
    match e {
        Some(e) => " ["@ + e + "]"@,
        None => Seq::empty(),
    }
}

pub open spec fn probe_line(p: ProbeView) -> Seq<char> {
    "  "@ + p.relay_name + " → "@ + or_text(p.observed_addr, "failed"@) + " ("@ + ms_text(
        p.latency_ms,
    ) + "ms)"@ + error_text(p.error) + "\n"@
}

pub open spec fn relay_line(l: LatencyView) -> Seq<char> {
    "  "@ + l.name + " ("@ + l.addr + ") → "@ + ms_text(l.rtt_ms) + "ms"@ + error_text(l.error)
        + "\n"@
}

/// One line for each probe.
pub open spec fn probes_text(probes: Seq<ProbeView>) -> Seq<char>
    decreases probes.len(),
{
    if probes.len() == 0 {
        Seq::empty()
    } else {
        probes_text(probes.drop_last()) + probe_line(probes.last())
    }
}

/// One line for each relay.
pub open spec fn relays_text(rows: Seq<LatencyView>) -> Seq<char>
    decreases rows.len(),
{
    if rows.len() == 0 {
        Seq::empty()
    } else {
        relays_text(rows.drop_last()) + relay_line(rows.last())
    }
}

pub open spec fn address_section(r: NetcheckReport) -> Seq<char> {
    "=== WarzonePhone Netcheck ===\n\nNAT Type:       "@ + nat_type_text(r.nat_type)
        + "\nReflexive Addr: "@ + or_text(opt_text(r.reflexive_addr), "(unknown)"@)
        + "\nIPv4:           "@ + yes_no(r.ipv4_reachable) + "\nIPv6:           "@ + yes_no(
        r.ipv6_reachable,
    ) + "\nGateway:        "@ + or_text(opt_text(r.gateway), "(unknown)"@) + "\n"@
}

pub open spec fn mapping_section(r: NetcheckReport) -> Seq<char> {
    "\n--- Port Mapping ---\nNAT-PMP: "@ + yes_no(r.nat_pmp_available) + "  PCP: "@ + yes_no(
        r.pcp_available,
    ) + "  UPnP: "@ + yes_no(r.upnp_available) + "\n"@ + (match r.port_mapping {
        Some(p) => "Active mapping: "@ + protocol_text(p) + "\n"@,
        None => Seq::empty(),
    })
}

pub open spec fn stun_section(r: NetcheckReport) -> Seq<char> {
    if r.stun_probes@.len() == 0 {
        Seq::empty()
    } else {
        "\n--- STUN Probes ---\n"@ + probes_text(probes_view(r.stun_probes@))
    }
}

pub open spec fn relay_section(r: NetcheckReport) -> Seq<char> {
    if r.relay_latencies@.len() == 0 {
        Seq::empty()
    } else {
        "\n--- Relay Latencies ---\n"@ + relays_text(latencies_view(r.relay_latencies@)) + (
        match opt_text(r.preferred_relay) {
            Some(p) => "  Preferred: "@ + p + "\n"@,
            None => Seq::empty(),
        })
    }
}

/// The report as text for people.
pub open spec fn report_text(r: NetcheckReport) -> Seq<char> {
    address_section(r) + mapping_section(r) + stun_section(r) + relay_section(r) + "\nCompleted in "@
        + crate::text::decimal(r.duration_ms as nat) + "ms\n"@
}

fn push_yes_no(out: &mut String, b: bool)
    ensures
        final(out)@ == old(out)@ + yes_no(b),
{
    if b {
        out.append("yes");
    } else {
        out.append("no");
    }
}

fn push_or(out: &mut String, t: &Option<String>, default: &str)
    ensures
        final(out)@ == old(out)@ + or_text(opt_text(*t), default@),
{
    match t {
        Some(s) => out.append(s.as_str()),
        None => out.append(default),
    }
}

fn push_ms(out: &mut String, ms: Option<u32>)
    ensures
        final(out)@ == old(out)@ + ms_text(ms),
{
    match ms {
        Some(v) => push_decimal(out, v as u64),
        None => out.append("-"),
    }
}

fn push_error(out: &mut String, e: &Option<String>)
    ensures
        final(out)@ == old(out)@ + error_text(opt_text(*e)),
{
    let ghost start = out@;
    if let Some(t) = e {
        out.append(" [");
        out.append(t.as_str());
        out.append("]");
    }
    assert(out@ =~= start + error_text(opt_text(*e)));
}

fn addresses_string(report: &NetcheckReport) -> (r: String)
    ensures
        r@ == address_section(*report),
{
    let mut text = String::from_str("=== WarzonePhone Netcheck ===\n\nNAT Type:       ");
    let out = &mut text;
    match report.nat_type {
        NatType::Cone => out.append("Cone"),
        NatType::SymmetricPort => out.append("SymmetricPort"),
        NatType::Multiple => out.append("Multiple"),
        NatType::Unknown => out.append("Unknown"),
    }
    out.append("\nReflexive Addr: ");
    push_or(out, &report.reflexive_addr, "(unknown)");
    out.append("\nIPv4:           ");
    push_yes_no(out, report.ipv4_reachable);
    out.append("\nIPv6:           ");
    push_yes_no(out, report.ipv6_reachable);
    out.append("\nGateway:        ");
    push_or(out, &report.gateway, "(unknown)");
    out.append("\n");
    text
}

fn mapping_string(report: &NetcheckReport) -> (r: String)
    ensures
        r@ == mapping_section(*report),
{
    let mut text = String::from_str("\n--- Port Mapping ---\nNAT-PMP: ");
    let out = &mut text;
    push_yes_no(out, report.nat_pmp_available);
    out.append("  PCP: ");
    push_yes_no(out, report.pcp_available);
    out.append("  UPnP: ");
    push_yes_no(out, report.upnp_available);
    out.append("\n");
    if let Some(p) = report.port_mapping {
        let mut active = String::from_str("Active mapping: ");
        active.append(p.name());
        active.append("\n");
        out.append(active.as_str());
    } else {
        assert(out@ + Seq::<char>::empty() =~= out@);
    }
    text
}

fn probe_line_string(p: &NatProbeResult) -> (r: String)
    ensures
        r@ == probe_line(p@),
{
    let mut text = String::from_str("  ");
    let out = &mut text;
    out.append(p.relay_name.as_str());
    out.append(" → ");
    push_or(out, &p.observed_addr, "failed");
    out.append(" (");
    push_ms(out, p.latency_ms);
    out.append("ms)");
    push_error(out, &p.error);
    out.append("\n");
    text
}

fn relay_line_string(l: &RelayLatency) -> (r: String)
    ensures
        r@ == relay_line(l@),
{
    let mut text = String::from_str("  ");
    let out = &mut text;
    out.append(l.name.as_str());
    out.append(" (");
    out.append(l.addr.as_str());
    out.append(") → ");
    push_ms(out, l.rtt_ms);
    out.append("ms");
    push_error(out, &l.error);
    out.append("\n");
    text
}

fn push_probes(out: &mut String, probes: &Vec<NatProbeResult>)
    ensures
        final(out)@ == old(out)@ + probes_text(probes_view(probes@)),
{
    let ghost start = out@;
    let ghost view = probes_view(probes@);
    let mut i: usize = 0;
    assert(view.take(0) =~= Seq::empty());
    assert(out@ =~= start + probes_text(view.take(0)));
    while i < probes.len()
        invariant
            i <= probes@.len(),
            view == probes_view(probes@),
            out@ == start + probes_text(view.take(i as int)),
        decreases probes.len() - i,
    {
        proof {
            assert(view.take(i + 1).drop_last() =~= view.take(i as int));
            assert(view.take(i + 1).last() == probes@[i as int]@);
        }
        out.append(probe_line_string(&probes[i]).as_str());
        i += 1;
        assert(out@ =~= start + probes_text(view.take(i as int)));
    }
    assert(view.take(i as int) =~= view);
}

fn push_relays(out: &mut String, rows: &Vec<RelayLatency>)
    ensures
        final(out)@ == old(out)@ + relays_text(latencies_view(rows@)),
{
    let ghost start = out@;
    let ghost view = latencies_view(rows@);
    let mut i: usize = 0;
    assert(view.take(0) =~= Seq::empty());
    assert(out@ =~= start + relays_text(view.take(0)));
    while i < rows.len()
        invariant
            i <= rows@.len(),
            view == latencies_view(rows@),
            out@ == start + relays_text(view.take(i as int)),
        decreases rows.len() - i,
    {
        proof {
            assert(view.take(i + 1).drop_last() =~= view.take(i as int));
            assert(view.take(i + 1).last() == rows@[i as int]@);
        }
        out.append(relay_line_string(&rows[i]).as_str());
        i += 1;
        assert(out@ =~= start + relays_text(view.take(i as int)));
    }
    assert(view.take(i as int) =~= view);
}

fn stun_string(report: &NetcheckReport) -> (r: String)
    ensures
        r@ == stun_section(*report),
{
    let mut text = String::new();
    if report.stun_probes.len() > 0 {
        text.append("\n--- STUN Probes ---\n");
        push_probes(&mut text, &report.stun_probes);
    }
    assert(text@ =~= stun_section(*report));
    text
}

fn relays_string(report: &NetcheckReport) -> (r: String)
    ensures
        r@ == relay_section(*report),
{
    let mut text = String::new();
    if report.relay_latencies.len() > 0 {
        text.append("\n--- Relay Latencies ---\n");
        push_relays(&mut text, &report.relay_latencies);
        if let Some(p) = &report.preferred_relay {
            text.append("  Preferred: ");
            text.append(p.as_str());
            text.append("\n");
        }
    }
    assert(text@ =~= relay_section(*report));
    text
}

/// Formats a report for people.
pub fn format_report(report: &NetcheckReport) -> (r: String)
    ensures
        r@ == report_text(*report),
{
    let mut out = addresses_string(report);
    out.append(mapping_string(report).as_str());
    out.append(stun_string(report).as_str());
    out.append(relays_string(report).as_str());
    out.append("\nCompleted in ");
    push_decimal(&mut out, report.duration_ms as u64);
    out.append("ms\n");
    out
}

} // verus!
