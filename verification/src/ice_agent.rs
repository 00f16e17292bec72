//! Candidates of both sides of a call over its lifetime.
use vstd::prelude::*;

use crate::dual_path::PeerCandidates;
use crate::net::{parse_socket, socket_text, SocketAddr};
use crate::proto::{opt_text, SignalMessage};
use crate::stun::{texts, StunConfig};
use crate::time::Duration;

verus! {

broadcast use vstd::string::group_string_axioms;

/// All candidates gathered for the local side.
#[derive(Debug, Clone)]
pub struct CandidateSet {
    pub reflexive: Option<SocketAddr>,
    pub local: Vec<SocketAddr>,
    pub mapped: Option<SocketAddr>,
    /// Counts gatherings of one call, from zero.
    pub generation: u32,
}

#[derive(Debug, Clone)]
pub struct IceAgentConfig {
    pub stun_config: StunConfig,
    /// Whether to ask the gateway for a port mapping.
    pub enable_portmap: bool,
    /// Time for each way of discovery.
    pub gather_timeout: Duration,
    /// Local IPv4 port of the endpoint; zero if there is none.
    pub local_v4_port: u16,
    pub local_v6_port: Option<u16>,
}

impl Default for IceAgentConfig {
    fn default() -> (r: Self)
        ensures
            texts(r.stun_config.servers@) == crate::stun::default_servers(),
            r.stun_config.timeout.nanos == 3_000_000_000,
            r.enable_portmap,
            r.gather_timeout.nanos == 3_000_000_000,
            r.local_v4_port == 0,
            r.local_v6_port is None,
    {
        IceAgentConfig {
            stun_config: StunConfig::default(),
            enable_portmap: true,
            gather_timeout: Duration::from_secs(3),
            local_v4_port: 0,
            local_v6_port: None,
        }
    }
}

/// Keeps count of gatherings and of what the peer has announced.
pub struct IceAgent {
    pub config: IceAgentConfig,
    pub call_id: String,
    /// Gatherings so far, modulo 2^32.
    pub generation: u32,
    /// The newest generation that the peer has announced.
    pub peer_generation: u32,
}

/// The address that an optional text is the text of.
pub open spec fn parse_opt(t: Option<Seq<char>>) -> Option<SocketAddr> {
    match t {
        Some(t) => parse_socket(t),
        None => None,
    }
}

pub open spec fn opt_socket_text(a: Option<SocketAddr>) -> Option<Seq<char>> {
    match a {
        Some(a) => Some(socket_text(a)),
        None => None,
    }
}

/// The addresses among some texts, in order.
pub open spec fn parse_all(ts: Seq<Seq<char>>) -> Seq<SocketAddr>
    decreases ts.len(),
{
    if ts.len() == 0 {
        Seq::empty()
    } else {
        match parse_socket(ts.last()) {
            Some(a) => parse_all(ts.drop_last()).push(a),
            None => parse_all(ts.drop_last()),
        }
    }
}

pub open spec fn all_texts(addrs: Seq<SocketAddr>) -> Seq<Seq<char>> {
    addrs.map_values(|a: SocketAddr| socket_text(a))
}

/// Sending addresses as text and reading them back gives the same addresses.
pub proof fn lemma_addresses_survive(addrs: Seq<SocketAddr>)
    ensures
        parse_all(all_texts(addrs)) == addrs,
    decreases addrs.len(),
{
    if addrs.len() > 0 {
        let front = addrs.drop_last();
        lemma_addresses_survive(front);
        crate::net::lemma_socket_round_trip(addrs.last());
        assert(all_texts(addrs).drop_last() =~= all_texts(front));
        assert(all_texts(addrs).last() == socket_text(addrs[addrs.len() - 1]));
        assert(front.push(addrs.last()) =~= addrs);
    } else {
        assert(parse_all(all_texts(addrs)) =~= addrs);
    }
}

/// A text that is no address is left out, and the others keep their order.
pub proof fn lemma_unreadable_left_out(ts: Seq<Seq<char>>, t: Seq<char>, a: SocketAddr)
    requires
        parse_socket(t) is None,
    ensures
        parse_all(ts.push(t)) == parse_all(ts),
        parse_all(ts.push(socket_text(a))) == parse_all(ts).push(a),
{
    assert(ts.push(t).drop_last() =~= ts);
    assert(ts.push(socket_text(a)).drop_last() =~= ts);
    crate::net::lemma_socket_round_trip(a);
}

/// `msg` tells of a gathering: the addresses as text, and its generation.
pub open spec fn announces(
    msg: SignalMessage,
    call_id: Seq<char>,
    reflexive: Option<SocketAddr>,
    local: Seq<SocketAddr>,
    mapped: Option<SocketAddr>,
    generation: u32,
) -> bool {
    match msg {
        SignalMessage::CandidateUpdate {
            call_id: id,
            reflexive_addr,
            local_addrs,
            mapped_addr,
            generation: n,
        } => {
            &&& id@ == call_id
            &&& opt_text(reflexive_addr) == opt_socket_text(reflexive)
            &&& texts(local_addrs@) == all_texts(local)
            &&& opt_text(mapped_addr) == opt_socket_text(mapped)
            &&& n == generation
        },
        _ => false,
    }
}

/// `c` is what a peer reads from `msg`.
pub open spec fn reads(msg: SignalMessage, c: PeerCandidates) -> bool {
    match msg {
        SignalMessage::CandidateUpdate { reflexive_addr, local_addrs, mapped_addr, .. } => {
            &&& c.reflexive == parse_opt(opt_text(reflexive_addr))
            &&& c.local@ == parse_all(texts(local_addrs@))
            &&& c.mapped == parse_opt(opt_text(mapped_addr))
        },
        _ => false,
    }
}

/// A peer that takes in an update has the very candidates that were
/// gathered.
pub proof fn lemma_candidates_survive(
    msg: SignalMessage,
    call_id: Seq<char>,
    reflexive: Option<SocketAddr>,
    local: Seq<SocketAddr>,
    mapped: Option<SocketAddr>,
    generation: u32,
    c: PeerCandidates,
)
    requires
        announces(msg, call_id, reflexive, local, mapped, generation),
        reads(msg, c),
    ensures
        c.reflexive == reflexive,
        c.local@ == local,
        c.mapped == mapped,
{
    lemma_addresses_survive(local);
    if let Some(a) = reflexive {
        crate::net::lemma_socket_round_trip(a);
    }
    if let Some(a) = mapped {
        crate::net::lemma_socket_round_trip(a);
    }
}

impl IceAgent {
    pub fn new(call_id: String, config: IceAgentConfig) -> (r: Self)
        ensures
            r.call_id == call_id,
            r.config == config,
            r.generation == 0,
            r.peer_generation == 0,
    {
        IceAgent { config, call_id, generation: 0, peer_generation: 0 }
    }

    /// How many gatherings there have been, modulo 2^32.
    pub fn generation(&self) -> (r: u32)
        ensures
            r == self.generation,
    {
        self.generation
    }

    /// The number of the gathering that begins now.
    pub fn next_generation(&mut self) -> (r: u32)
        ensures
            r == old(self).generation,
            final(self).generation == (old(self).generation + 1) % 0x1_0000_0000,
            final(self).peer_generation == old(self).peer_generation,
            final(self).call_id == old(self).call_id,
            final(self).config == old(self).config,
    {
        let r: u32 = self.generation;
        self.generation = if r == u32::MAX {
            0
        } else {
            r + 1
        };
        r
    }

    /// Whether a gathering asks the gateway for a mapping.
    pub fn wants_portmap(&self) -> (r: bool)
        ensures
            r == (self.config.enable_portmap && self.config.local_v4_port > 0),
    {
        self.config.enable_portmap && self.config.local_v4_port > 0
    }

    /// Completes a gathering with what each way of discovery found.
    pub fn gather(
        &mut self,
        reflexive: Option<SocketAddr>,
        local: Vec<SocketAddr>,
        mapped: Option<SocketAddr>,
    ) -> (r: CandidateSet)
        ensures
            r.reflexive == reflexive,
            r.local == local,
            r.mapped == mapped,
            r.generation == old(self).generation,
            final(self).generation == (old(self).generation + 1) % 0x1_0000_0000,
            final(self).peer_generation == old(self).peer_generation,
            final(self).call_id == old(self).call_id,
            final(self).config == old(self).config,
    {
        let generation: u32 = self.next_generation();
        CandidateSet { reflexive, local, mapped, generation }
    }

    /// The message that tells the peer of a gathering.
    pub fn candidate_update(&self, c: &CandidateSet) -> (r: SignalMessage)
        ensures
            announces(r, self.call_id@, c.reflexive, c.local@, c.mapped, c.generation),
    {
        let mut local_addrs: Vec<String> = Vec::new();
        let mut i: usize = 0;
        while i < c.local.len()
            invariant
                i <= c.local@.len(),
                texts(local_addrs@) == all_texts(c.local@).take(i as int),
            decreases c.local.len() - i,
        {
            let ghost before = texts(local_addrs@);
            local_addrs.push(c.local[i].text());
            i += 1;
            assert(texts(local_addrs@) =~= before.push(socket_text(c.local@[i - 1])));
            assert(texts(local_addrs@) =~= all_texts(c.local@).take(i as int));
        }
        assert(all_texts(c.local@).take(i as int) =~= all_texts(c.local@));
        SignalMessage::CandidateUpdate {
            call_id: self.call_id.clone(),
            reflexive_addr: opt_addr_text(c.reflexive),
            local_addrs,
            mapped_addr: opt_addr_text(c.mapped),
            generation: c.generation,
        }
    }

    /// Gathers again and gives the message for the peer.
    pub fn re_gather(
        &mut self,
        reflexive: Option<SocketAddr>,
        local: Vec<SocketAddr>,
        mapped: Option<SocketAddr>,
    ) -> (r: (CandidateSet, SignalMessage))
        ensures
            r.0.reflexive == reflexive,
            r.0.local == local,
            r.0.mapped == mapped,
            r.0.generation == old(self).generation,
            final(self).generation == (old(self).generation + 1) % 0x1_0000_0000,
            final(self).peer_generation == old(self).peer_generation,
            final(self).call_id == old(self).call_id,
            final(self).config == old(self).config,
            announces(r.1, old(self).call_id@, reflexive, local@, mapped, old(self).generation),
    {
        let c = self.gather(reflexive, local, mapped);
        let update = self.candidate_update(&c);
        (c, update)
    }

    /// Takes in a peer's update: only one of a newer generation than any
    /// before counts, and addresses that cannot be read are left out.
    pub fn apply_peer_update(&mut self, update: &SignalMessage) -> (r: Option<PeerCandidates>)
        ensures
            final(self).generation == old(self).generation,
            final(self).call_id == old(self).call_id,
            final(self).config == old(self).config,
            match *update {
                SignalMessage::CandidateUpdate { generation, .. } => {
                    if generation > old(self).peer_generation {
                        &&& final(self).peer_generation == generation
                        &&& r matches Some(c) && reads(*update, c)
                    } else {
                        &&& final(self).peer_generation == old(self).peer_generation
                        &&& r is None
                    }
                },
                _ => final(self).peer_generation == old(self).peer_generation && r is None,
            },
            r is Some <==> final(self).peer_generation > old(self).peer_generation,
            final(self).peer_generation >= old(self).peer_generation,
    {
        match update {
            SignalMessage::CandidateUpdate {
                reflexive_addr,
                local_addrs,
                mapped_addr,
                generation,
                ..
            } => {
                if *generation <= self.peer_generation {
                    return None;
                }
                self.peer_generation = *generation;
                let ghost all = texts(local_addrs@);
                let mut local: Vec<SocketAddr> = Vec::new();
                let mut i: usize = 0;
                assert(all.take(0) =~= Seq::empty());
                while i < local_addrs.len()
                    invariant
                        i <= local_addrs@.len(),
                        all == texts(local_addrs@),
                        local@ == parse_all(all.take(i as int)),
                    decreases local_addrs.len() - i,
                {
                    proof {
                        assert(all.take(i + 1).drop_last() =~= all.take(i as int));
                        assert(all.take(i + 1).last() == local_addrs@[i as int]@);
                    }
                    if let Some(a) = SocketAddr::parse(local_addrs[i].as_str()) {
                        local.push(a);
                    }
                    i += 1;
                }
                assert(all.take(i as int) =~= all);
                Some(
                    PeerCandidates {
                        reflexive: parse_opt_exec(reflexive_addr),
                        local,
                        mapped: parse_opt_exec(mapped_addr),
                    },
                )
            },
            _ => None,
        }
    }
}

fn opt_addr_text(a: Option<SocketAddr>) -> (r: Option<String>)
    ensures
        opt_text(r) == opt_socket_text(a),
{
    match a {
        Some(a) => Some(a.text()),
        None => None,
    }
}

fn parse_opt_exec(t: &Option<String>) -> (r: Option<SocketAddr>)
    ensures
        r == parse_opt(opt_text(*t)),
{
    match t {
        Some(s) => SocketAddr::parse(s.as_str()),
        None => None,
    }
}

} // verus!
