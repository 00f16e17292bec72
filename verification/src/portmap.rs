//! Port mappings on the gateway: NAT-PMP, PCP and UPnP, their messages and
//! the order in which they are tried.
use vstd::prelude::*;
use vstd::string::StringExecFns;

use crate::bytes::{be16, be16_bytes, be32, be32_bytes, zeros};
use crate::bytes::{
    copy_bytes, push_all, push_be16, push_be32, push_zeros, read_be16, read_be32, same_bytes,
};
use crate::net::{v4_text, IpAddr, Ipv4Addr, SocketAddr};
use crate::random::random_bytes;
use crate::text::{
    byte_prefix_exec, chars_of, contains_text_exec, copy_range, find_from_exec, hex_u32_exec,
    index_of_from_exec, lines_exec, lower_char_exec, push_decimal, same_chars, string_of,
    strip_prefix_exec, trim_exec, words_exec, HexFailure,
};
use crate::time::Duration;

verus! {

broadcast use vstd::string::group_string_axioms;

pub const NATPMP_PORT: u16 = 5351;

pub const NATPMP_OP_MAP_UDP: u8 = 1;

pub const NATPMP_VERSION: u8 = 0;

pub const PCP_PORT: u16 = 5351;

pub const PCP_VERSION: u8 = 2;

pub const PCP_OPCODE_MAP: u8 = 1;

/// Seconds for which a mapping is asked for.
pub const MAPPING_LIFETIME_SECS: u32 = 7200;

#[derive(Debug, Clone, Copy, PartialEq, Eq, Structural)]
pub enum PortMapProtocol {
    NatPmp,
    Pcp,
    UPnP,
}

pub open spec fn protocol_text(p: PortMapProtocol) -> Seq<char> {
    match p {
        PortMapProtocol::NatPmp => "NatPmp"@,
        PortMapProtocol::Pcp => "Pcp"@,
        PortMapProtocol::UPnP => "UPnP"@,
    }
}

impl PortMapProtocol {
    pub fn name(&self) -> (r: &'static str)
        ensures
            r@ == protocol_text(*self),
    {
        match self {
            PortMapProtocol::NatPmp => "NatPmp",
            PortMapProtocol::Pcp => "Pcp",
            PortMapProtocol::UPnP => "UPnP",
        }
    }
}

/// An active mapping.
#[derive(Debug, Clone, Copy, PartialEq, Eq, Structural)]
pub struct PortMapping {
    /// Where peers can reach us.
    pub external_addr: SocketAddr,
    pub protocol: PortMapProtocol,
    /// When the mapping ends, in nanoseconds of a running clock.
    pub expires_at: u64,
    /// How often to refresh it: half of its lifetime.
    pub refresh_interval: Duration,
    pub gateway: Ipv4Addr,
    pub internal_port: u16,
}

/// A mapping granted at `now` for `lifetime_secs` seconds.
pub open spec fn mapping_of(
    external_addr: SocketAddr,
    protocol: PortMapProtocol,
    gateway: Ipv4Addr,
    internal_port: u16,
    lifetime_secs: u32,
    now: u64,
) -> PortMapping {
    PortMapping {
        external_addr,
        protocol,
        expires_at: (now + lifetime_secs * 1_000_000_000) as u64,
        refresh_interval: Duration { nanos: (lifetime_secs * 1_000_000_000 / 2) as u128 },
        gateway,
        internal_port,
    }
}

/// The clock has room for any lifetime.
pub open spec fn clock_ok(now: u64) -> bool {
    now <= u64::MAX - 0x1_0000_0000 * 1_000_000_000
}

/// A mapping lasts for the seconds that it was granted for, is refreshed
/// after half of that time (and so before it ends), and is of the very
/// address, protocol, gateway and port that it was granted for.
pub proof fn lemma_refreshed_in_time(
    external_addr: SocketAddr,
    protocol: PortMapProtocol,
    gateway: Ipv4Addr,
    internal_port: u16,
    lifetime_secs: u32,
    now: u64,
)
    requires
        clock_ok(now),
    ensures
        ({
            let m = mapping_of(
                external_addr,
                protocol,
                gateway,
                internal_port,
                lifetime_secs,
                now,
            );
            &&& m.expires_at - now == lifetime_secs * 1_000_000_000
            &&& now + 2 * m.refresh_interval.nanos == m.expires_at
            &&& lifetime_secs > 0 ==> now < now + m.refresh_interval.nanos < m.expires_at
            &&& m.external_addr == external_addr && m.protocol == protocol
            &&& m.gateway == gateway && m.internal_port == internal_port
        }),
{
}

fn make_mapping(
    external_addr: SocketAddr,
    protocol: PortMapProtocol,
    gateway: Ipv4Addr,
    internal_port: u16,
    lifetime_secs: u32,
    now: u64,
) -> (r: PortMapping)
    requires
        clock_ok(now),
    ensures
        r == mapping_of(external_addr, protocol, gateway, internal_port, lifetime_secs, now),
{
    let nanos: u64 = lifetime_secs as u64 * 1_000_000_000;
    PortMapping {
        external_addr,
        protocol,
        expires_at: now + nanos,
        refresh_interval: Duration { nanos: (nanos / 2) as u128 },
        gateway,
        internal_port,
    }
}

// ---------------------------------------------------------------------------
// Errors
// ---------------------------------------------------------------------------

#[derive(Debug, Clone)]
pub enum PortMapError {
    NoGateway,
    Protocol(String),
    Io(String),
    Timeout,
    AllFailed(Vec<(PortMapProtocol, String)>),
}

/// [`PortMapError`] with its texts as character sequences.
pub enum PortMapErrorView {
    NoGateway,
    Protocol(Seq<char>),
    Io(Seq<char>),
    Timeout,
    AllFailed(Seq<(PortMapProtocol, Seq<char>)>),
}

pub open spec fn failures_view(v: Seq<(PortMapProtocol, String)>) -> Seq<
    (PortMapProtocol, Seq<char>),
> {
    v.map_values(|e: (PortMapProtocol, String)| (e.0, e.1@))
}

impl View for PortMapError {
    type V = PortMapErrorView;

    open spec fn view(&self) -> PortMapErrorView {
        match self {
            PortMapError::NoGateway => PortMapErrorView::NoGateway,
            PortMapError::Protocol(e) => PortMapErrorView::Protocol(e@),
            PortMapError::Io(e) => PortMapErrorView::Io(e@),
            PortMapError::Timeout => PortMapErrorView::Timeout,
            PortMapError::AllFailed(errs) => PortMapErrorView::AllFailed(failures_view(errs@)),
        }
    }
}

/// A result with its error by view.
pub open spec fn outcome<T>(r: Result<T, PortMapError>) -> Result<T, PortMapErrorView> {
    match r {
        Ok(v) => Ok(v),
        Err(e) => Err(e@),
    }
}

pub open spec fn failures_text(errs: Seq<(PortMapProtocol, Seq<char>)>) -> Seq<char>
    decreases errs.len(),
{
    if errs.len() == 0 {
        Seq::empty()
    } else {
        failures_text(errs.drop_last()) + seq![' '] + protocol_text(errs.last().0) + seq!['=']
            + errs.last().1
    }
}

pub open spec fn portmap_error_text(e: PortMapErrorView) -> Seq<char> {
    match e {
        PortMapErrorView::NoGateway => "no default gateway found"@,
        PortMapErrorView::Protocol(e) => "protocol error: "@ + e,
        PortMapErrorView::Io(e) => "I/O error: "@ + e,
        PortMapErrorView::Timeout => "timeout"@,
        PortMapErrorView::AllFailed(errs) => "all protocols failed:"@ + failures_text(errs),
    }
}

impl PortMapError {
    pub fn to_string(&self) -> (r: String)
        ensures
            r@ == portmap_error_text(self@),
    {
        let mut out = String::new();
        match self {
            PortMapError::NoGateway => out.append("no default gateway found"),
            PortMapError::Protocol(e) => {
                out.append("protocol error: ");
                out.append(e.as_str());
            },
            PortMapError::Io(e) => {
                out.append("I/O error: ");
                out.append(e.as_str());
            },
            PortMapError::Timeout => out.append("timeout"),
            PortMapError::AllFailed(errs) => {
                out.append("all protocols failed:");
                let ghost view = failures_view(errs@);
                let mut i: usize = 0;
                assert(view.take(0) =~= Seq::empty());
                assert(out@ =~= "all protocols failed:"@ + failures_text(view.take(0)));
                while i < errs.len()
                    invariant
                        i <= errs@.len(),
                        view == failures_view(errs@),
                        out@ == "all protocols failed:"@ + failures_text(view.take(i as int)),
                    decreases errs.len() - i,
                {
                    proof {
                        assert(view.take(i + 1).drop_last() =~= view.take(i as int));
                        assert(view.take(i + 1).last() == (errs@[i as int].0, errs@[i as int].1@));
                    }
                    let ghost before = out@;
                    out.push(' ');
                    out.append(errs[i].0.name());
                    out.push('=');
                    out.append(errs[i].1.as_str());
                    i += 1;
                    assert(out@ =~= "all protocols failed:"@ + failures_text(view.take(i as int)));
                }
                assert(view.take(i as int) =~= view);
            },
        }
        assert(out@ =~= portmap_error_text(self@));
        out
    }
}

fn protocol_error(text: &str) -> (r: PortMapError)
    ensures
        r@ == PortMapErrorView::Protocol(text@),
{
    PortMapError::Protocol(String::from_str(text))
}

fn protocol_error_number(text: &str, n: u64) -> (r: PortMapError)
    ensures
        r@ == PortMapErrorView::Protocol(text@ + crate::text::decimal(n as nat)),
{
    let mut m = String::from_str(text);
    push_decimal(&mut m, n);
    PortMapError::Protocol(m)
}

// ---------------------------------------------------------------------------
// The default gateway
// ---------------------------------------------------------------------------

/// What follows `gateway:` on the first line that begins with it.
pub open spec fn gateway_field(ls: Seq<Seq<char>>) -> Option<Seq<char>>
    decreases ls.len(),
{
    if ls.len() == 0 {
        None
    } else {
        match crate::text::strip_prefix(crate::text::trim(ls[0]), "gateway:"@) {
            Some(rest) => Some(crate::text::trim(rest)),
            None => gateway_field(ls.skip(1)),
        }
    }
}

/// What is said of a gateway that is no IPv4 address, given in quotes.
pub fn bad_gateway_text(quoted_gateway: &str) -> (r: String)
    ensures
        r@ == "parse gateway "@ + quoted_gateway@ + ": invalid IPv4 address syntax"@,
{
    let mut m = String::from_str("parse gateway ");
    m.append(quoted_gateway);
    m.append(": invalid IPv4 address syntax");
    m
}

/// Reads the default gateway from the output of `route -n get default`.
pub fn gateway_from_route_output(stdout: &str) -> (r: Result<Ipv4Addr, PortMapError>)
    ensures
        match gateway_field(crate::text::lines(stdout@)) {
            Some(gw) => match crate::net::parse_v4(gw) {
                Some(ip) => r == Ok::<Ipv4Addr, PortMapError>(ip),
                None => r matches Err(PortMapError::Protocol(m)) && m@ == "parse gateway "@
                    + crate::text::quoted(gw) + ": invalid IPv4 address syntax"@,
            },
            None => r matches Err(PortMapError::NoGateway),
        },
{
    let ls = lines_exec(chars_of(stdout).as_slice());
    let ghost view = crate::text::pieces_view(ls@);
    let mut i: usize = 0;
    assert(view.skip(0) =~= view);
    while i < ls.len()
        invariant
            i <= ls@.len(),
            view == crate::text::pieces_view(ls@),
            view == crate::text::lines(stdout@),
            gateway_field(view) == gateway_field(view.skip(i as int)),
        decreases ls.len() - i,
    {
        assert(view.skip(i as int)[0] == ls@[i as int]@);
        assert(view.skip(i as int).skip(1) =~= view.skip(i + 1));
        let trimmed = trim_exec(ls[i].as_slice());
        if let Some(rest) = strip_prefix_exec(trimmed.as_slice(), "gateway:") {
            let gw = trim_exec(rest.as_slice());
            return match crate::net::parse_v4_exec(gw.as_slice()) {
                Some(ip) => Ok(ip),
                None => {
                    let quoted_gateway = crate::text::quote(string_of(gw.as_slice()).as_str());
                    Err(PortMapError::Protocol(bad_gateway_text(quoted_gateway.as_str())))
                },
            };
        }
        i += 1;
    }
    Err(PortMapError::NoGateway)
}

/// The gateway field of a routing table line for the default route.
pub open spec fn default_route(ls: Seq<Seq<char>>) -> Option<Seq<char>>
    decreases ls.len(),
{
    if ls.len() == 0 {
        None
    } else {
        let fields = crate::text::words(ls[0]);
        if fields.len() >= 3 && fields[1] == "00000000"@ {
            Some(fields[2])
        } else {
            default_route(ls.skip(1))
        }
    }
}

/// A hexadecimal number, with an optional plus sign.
pub open spec fn signed_hex(s: Seq<char>) -> Result<u32, HexFailure> {
    if s.len() > 1 && s[0] == '+' {
        crate::text::hex_u32(s.skip(1))
    } else {
        crate::text::hex_u32(s)
    }
}

/// The address in a routing table: its first octet is the least significant
/// byte.
pub open spec fn v4_of_table(v: u32) -> Ipv4Addr {
    Ipv4Addr {
        a: (v % 256) as u8,
        b: ((v / 0x100) % 256) as u8,
        c: ((v / 0x1_0000) % 256) as u8,
        d: (v / 0x100_0000) as u8,
    }
}

/// All lines but the first.
pub open spec fn after_heading(ls: Seq<Seq<char>>) -> Seq<Seq<char>> {
    if ls.len() == 0 {
        ls
    } else {
        ls.skip(1)
    }
}

/// The default gateway in the kernel's routing table.
pub open spec fn table_gateway(contents: Seq<char>) -> Result<Ipv4Addr, PortMapErrorView> {
    match default_route(after_heading(crate::text::lines(contents))) {
        Some(field) => match signed_hex(field) {
            Ok(v) => Ok(v4_of_table(v)),
            Err(HexFailure::InvalidDigit) => Err(
                PortMapErrorView::Protocol("parse gateway hex: invalid digit found in string"@),
            ),
            Err(HexFailure::TooLarge) => Err(
                PortMapErrorView::Protocol(
                    "parse gateway hex: number too large to fit in target type"@,
                ),
            ),
        },
        None => Err(PortMapErrorView::NoGateway),
    }
}

/// Reads the default gateway from the kernel's routing table, the contents of
/// `/proc/net/route`; the first line is a heading.
pub fn gateway_from_route_table(contents: &str) -> (r: Result<Ipv4Addr, PortMapError>)
    ensures
        outcome(r) == table_gateway(contents@),
{
    let ls = lines_exec(chars_of(contents).as_slice());
    let ghost view = crate::text::pieces_view(ls@);
    let ghost all = after_heading(view);
    if ls.len() == 0 {
        assert(view.len() == 0);
        return Err(PortMapError::NoGateway);
    }
    let mut i: usize = 1;
    while i < ls.len()
        invariant
            1 <= i <= ls@.len(),
            view == crate::text::pieces_view(ls@),
            all == after_heading(view),
            view == crate::text::lines(contents@),
            default_route(all) == default_route(view.skip(i as int)),
        decreases ls.len() - i,
    {
        assert(view.skip(i as int)[0] == ls@[i as int]@);
        assert(view.skip(i as int).skip(1) =~= view.skip(i + 1));
        let fields = words_exec(ls[i].as_slice());
        let ghost fv = crate::text::pieces_view(fields@);
        assert(fv.len() == fields@.len());
        if fields.len() >= 3 {
            assert(fv[1] == fields@[1]@ && fv[2] == fields@[2]@);
            if same_chars(fields[1].as_slice(), chars_of("00000000").as_slice()) {
                let f = &fields[2];
                let digits = if f.len() > 1 && f[0] == '+' {
                    let t = copy_range(f.as_slice(), 1, f.len());
                    assert(t@ =~= f@.skip(1));
                    t
                } else {
                    let t = copy_range(f.as_slice(), 0, f.len());
                    assert(t@ =~= f@);
                    t
                };
                return match hex_u32_exec(digits.as_slice()) {
                    Ok(v) => Ok(
                        Ipv4Addr {
                            a: (v % 256) as u8,
                            b: ((v / 0x100) % 256) as u8,
                            c: ((v / 0x1_0000) % 256) as u8,
                            d: (v / 0x100_0000) as u8,
                        },
                    ),
                    Err(HexFailure::InvalidDigit) => Err(
                        protocol_error("parse gateway hex: invalid digit found in string"),
                    ),
                    Err(HexFailure::TooLarge) => Err(
                        protocol_error("parse gateway hex: number too large to fit in target type"),
                    ),
                };
            }
        }
        i += 1;
    }
    assert(default_route(view.skip(i as int)) is None);
    Err(PortMapError::NoGateway)
}

/// The number in a routing table is the address as a little-endian number.
pub proof fn lemma_table_number(v: u32)
    ensures
        ({
            let ip = v4_of_table(v);
            v == ip.a + 256 * ip.b + 65536 * ip.c + 16777216 * ip.d
        }),
{
}

/// Two hexadecimal digits for an octet.
pub open spec fn octet_digits(o: u8, upper: bool) -> Seq<char> {
    seq![crate::text::hex_char(o as int / 16, upper), crate::text::hex_char(o as int % 16, upper)]
}

/// An address as the kernel writes it in its routing table: eight digits, the
/// last octet first.
pub open spec fn table_field(ip: Ipv4Addr, upper: bool) -> Seq<char> {
    octet_digits(ip.d, upper) + octet_digits(ip.c, upper) + octet_digits(ip.b, upper)
        + octet_digits(ip.a, upper)
}

proof fn lemma_octet_pushed(s: Seq<char>, v: u32, o: u8, upper: bool)
    requires
        crate::text::hex_u32(s) == Ok::<u32, HexFailure>(v),
        v * 256 + o <= 0xffff_ffff,
    ensures
        crate::text::hex_u32(s + octet_digits(o, upper)) == Ok::<u32, HexFailure>(
            (v * 256 + o) as u32,
        ),
{
    let hi = o as int / 16;
    let lo = o as int % 16;
    crate::text::lemma_hex_u32_push(s, v, hi, upper);
    let t = s.push(crate::text::hex_char(hi, upper));
    crate::text::lemma_hex_u32_push(t, (v * 16 + hi) as u32, lo, upper);
    assert(t.push(crate::text::hex_char(lo, upper)) =~= s + octet_digits(o, upper));
}

/// The address of a number made of four octets.
proof fn lemma_table_address(ip: Ipv4Addr)
    ensures
        v4_of_table((ip.a + 256 * ip.b + 65536 * ip.c + 16777216 * ip.d) as u32) == ip,
{
    let (a, b, c, d) = (ip.a as int, ip.b as int, ip.c as int, ip.d as int);
    let v = a + 256 * b + 65536 * c + 16777216 * d;
    vstd::arithmetic::div_mod::lemma_fundamental_div_mod_converse(
        v,
        256,
        b + 256 * c + 65536 * d,
        a,
    );
    vstd::arithmetic::div_mod::lemma_fundamental_div_mod_converse(
        b + 256 * c + 65536 * d,
        256,
        c + 256 * d,
        b,
    );
    vstd::arithmetic::div_mod::lemma_fundamental_div_mod_converse(
        v,
        65536,
        c + 256 * d,
        a + 256 * b,
    );
    vstd::arithmetic::div_mod::lemma_fundamental_div_mod_converse(c + 256 * d, 256, d, c);
    vstd::arithmetic::div_mod::lemma_fundamental_div_mod_converse(
        v,
        16777216,
        d,
        a + 256 * b + 65536 * c,
    );
}

proof fn lemma_table_field_value(ip: Ipv4Addr, upper: bool)
    ensures
        crate::text::hex_u32(table_field(ip, upper)) == Ok::<u32, HexFailure>(
            (ip.a + 256 * ip.b + 65536 * ip.c + 16777216 * ip.d) as u32,
        ),
{
    let d = octet_digits(ip.d, upper);
    let c = d + octet_digits(ip.c, upper);
    let b = c + octet_digits(ip.b, upper);
    let none = Seq::<char>::empty();
    assert(none + d =~= d);
    assert(crate::text::hex_u32(none) == Ok::<u32, HexFailure>(0));
    lemma_octet_pushed(none, 0, ip.d, upper);
    lemma_octet_pushed(d, ip.d as u32, ip.c, upper);
    lemma_octet_pushed(c, (256 * ip.d + ip.c) as u32, ip.b, upper);
    lemma_octet_pushed(b, (65536 * ip.d + 256 * ip.c + ip.b) as u32, ip.a, upper);
}

/// The field reads back as the address, and is one word.
proof fn lemma_table_field(ip: Ipv4Addr, upper: bool)
    ensures
        signed_hex(table_field(ip, upper)) == Ok::<u32, HexFailure>(
            (ip.a + 256 * ip.b + 65536 * ip.c + 16777216 * ip.d) as u32,
        ),
        table_field(ip, upper).len() == 8,
        crate::text::has_no_space(table_field(ip, upper)),
{
    lemma_table_field_value(ip, upper);
    let f = table_field(ip, upper);
    assert(f[0] == crate::text::hex_char(ip.d as int / 16, upper));
    crate::text::lemma_hex_char(ip.d as int / 16, upper);
    assert forall|i: int| 0 <= i < f.len() implies !crate::text::is_space(#[trigger] f[i]) by {
        let o = if i < 2 {
            ip.d
        } else if i < 4 {
            ip.c
        } else if i < 6 {
            ip.b
        } else {
            ip.a
        };
        crate::text::lemma_hex_char(o as int / 16, upper);
        crate::text::lemma_hex_char(o as int % 16, upper);
        assert(f[i] == octet_digits(o, upper)[i % 2]);
    }
}

/// A line of the routing table that is not for the default route.
pub open spec fn other_route(line: Seq<char>) -> bool {
    let fields = crate::text::words(crate::text::strip_return(line));
    &&& crate::text::has_no(line, '\n')
    &&& fields.len() < 3 || fields[1] != "00000000"@
}

/// Lines, each with a newline after it.
pub open spec fn unlines(ls: Seq<Seq<char>>) -> Seq<char>
    decreases ls.len(),
{
    if ls.len() == 0 {
        Seq::empty()
    } else {
        ls[0] + seq!['\n'] + unlines(ls.skip(1))
    }
}

/// The line of the default route, as the kernel writes it.
pub open spec fn default_route_line(
    iface: Seq<char>,
    ip: Ipv4Addr,
    upper: bool,
    more: Seq<char>,
) -> Seq<char> {
    iface + seq!['\t'] + "00000000"@ + seq!['\t'] + table_field(ip, upper) + seq!['\t'] + more
}

proof fn lemma_other_routes_skipped(others: Seq<Seq<char>>, rest: Seq<char>)
    requires
        forall|i: int| 0 <= i < others.len() ==> other_route(#[trigger] others[i]),
    ensures
        default_route(crate::text::lines(unlines(others) + rest)) == default_route(
            crate::text::lines(rest),
        ),
    decreases others.len(),
{
    if others.len() == 0 {
        assert(unlines(others) + rest =~= rest);
    } else {
        let tail = others.skip(1);
        assert forall|i: int| 0 <= i < tail.len() implies other_route(#[trigger] tail[i]) by {
            assert(tail[i] == others[i + 1]);
        }
        lemma_other_routes_skipped(tail, rest);
        let following = unlines(tail) + rest;
        assert(other_route(others[0]));
        assert(unlines(others) + rest =~= others[0] + seq!['\n'] + following);
        crate::text::lemma_lines_first(others[0], following);
        let ls = crate::text::lines(unlines(others) + rest);
        assert(ls[0] == crate::text::strip_return(others[0]));
        assert(ls.skip(1) =~= crate::text::lines(following));
    }
}

/// For every address: a routing table with a default route through it gives
/// it, whatever the heading, the routes before, the interface, the fields
/// after the gateway and the lines that follow.
#[verifier::spinoff_prover]
pub proof fn lemma_route_table_round_trip(
    heading: Seq<char>,
    others: Seq<Seq<char>>,
    iface: Seq<char>,
    ip: Ipv4Addr,
    upper: bool,
    more: Seq<char>,
    rest: Seq<char>,
)
    requires
        crate::text::has_no(heading, '\n'),
        forall|i: int| 0 <= i < others.len() ==> other_route(#[trigger] others[i]),
        iface.len() > 0,
        crate::text::has_no_space(iface),
        crate::text::has_no(more, '\n'),
    ensures
        table_gateway(
            heading + seq!['\n'] + (unlines(others) + (default_route_line(iface, ip, upper, more)
                + seq!['\n'] + rest)),
        ) == Ok::<Ipv4Addr, PortMapErrorView>(ip),
{
    reveal_strlit("00000000");
    let line = default_route_line(iface, ip, upper, more);
    let last = line + seq!['\n'] + rest;
    let body = unlines(others) + last;
    crate::text::lemma_lines_first(heading, body);
    let ls = crate::text::lines(heading + seq!['\n'] + body);
    assert(ls.skip(1) =~= crate::text::lines(body));
    lemma_other_routes_skipped(others, last);
    lemma_table_field(ip, upper);
    lemma_table_address(ip);
    let field = table_field(ip, upper);
    assert(crate::text::has_no(line, '\n')) by {
        assert forall|i: int| 0 <= i < line.len() implies #[trigger] line[i] != '\n' by {
            let n = iface.len() as int;
            if i < n {
                assert(line[i] == iface[i]);
            } else if i == n || i == n + 9 || i == n + 18 {
            } else if i < n + 9 {
                assert(line[i] == "00000000"@[i - n - 1]);
            } else if i < n + 18 {
                assert(line[i] == field[i - n - 10]);
            } else {
                assert(line[i] == more[i - n - 19]);
            }
        }
    }
    crate::text::lemma_lines_first(line, rest);
    let shown = crate::text::strip_return(line);
    let kept = crate::text::strip_return(more);
    assert(shown =~= iface + seq!['\t'] + ("00000000"@ + seq!['\t'] + (field + seq!['\t']
        + kept)));
    crate::text::lemma_words_first(
        iface,
        '\t',
        "00000000"@ + seq!['\t'] + (field + seq!['\t'] + kept),
    );
    assert(crate::text::has_no_space("00000000"@));
    crate::text::lemma_words_first("00000000"@, '\t', field + seq!['\t'] + kept);
    crate::text::lemma_words_first(field, '\t', kept);
    let fields = crate::text::words(shown);
    assert(fields[1] == "00000000"@);
    assert(fields[2] == field);
    assert(crate::text::lines(last)[0] == shown);
}

// ---------------------------------------------------------------------------
// NAT-PMP
// ---------------------------------------------------------------------------

/// Asks for the external address.
pub fn natpmp_address_request() -> (r: [u8; 2])
    ensures
        r@ == seq![0u8, 0],
{
    let r: [u8; 2] = [NATPMP_VERSION, 0];
    assert(r@ =~= seq![0u8, 0]);
    r
}

/// What a reply to an external address request tells.
pub open spec fn natpmp_address(buf: Seq<u8>) -> Result<Ipv4Addr, PortMapErrorView> {
    if buf.len() < 12 {
        Err(
            PortMapErrorView::Protocol(
                "NAT-PMP external addr response too short: "@ + crate::text::decimal(buf.len()),
            ),
        )
    } else if be16(buf[2], buf[3]) != 0 {
        Err(
            PortMapErrorView::Protocol(
                "NAT-PMP error: result code "@ + crate::text::decimal(
                    be16(buf[2], buf[3]) as nat,
                ),
            ),
        )
    } else {
        Ok(Ipv4Addr { a: buf[8], b: buf[9], c: buf[10], d: buf[11] })
    }
}

pub fn parse_natpmp_address(buf: &[u8]) -> (r: Result<Ipv4Addr, PortMapError>)
    ensures
        outcome(r) == natpmp_address(buf@),
{
    if buf.len() < 12 {
        return Err(
            protocol_error_number("NAT-PMP external addr response too short: ", buf.len() as u64),
        );
    }
    let code: u16 = read_be16(buf, 2);
    if code != 0 {
        return Err(protocol_error_number("NAT-PMP error: result code ", code as u64));
    }
    Ok(Ipv4Addr { a: buf[8], b: buf[9], c: buf[10], d: buf[11] })
}

/// A request to map a UDP port: version, opcode, two reserved bytes, the
/// internal and the wanted external port, the lifetime.
pub open spec fn natpmp_map_message(internal_port: u16, external_port: u16, lifetime: u32) -> Seq<u8> {
    seq![0u8, 1, 0, 0] + be16_bytes(internal_port) + be16_bytes(external_port) + be32_bytes(
        lifetime,
    )
}

pub fn natpmp_map_request(internal_port: u16, external_port: u16, lifetime_secs: u32) -> (r: Vec<u8>)
    ensures
        r@ == natpmp_map_message(internal_port, external_port, lifetime_secs),
        r@.len() == 12,
{
    let mut r: Vec<u8> = vec![NATPMP_VERSION, NATPMP_OP_MAP_UDP, 0, 0];
    assert(r@ =~= seq![0u8, 1, 0, 0]);
    push_be16(&mut r, internal_port);
    push_be16(&mut r, external_port);
    push_be32(&mut r, lifetime_secs);
    r
}

/// What a reply to a mapping request tells: the external port and for how
/// long.
pub open spec fn natpmp_granted(buf: Seq<u8>) -> Result<(u16, u32), PortMapErrorView> {
    if buf.len() < 16 {
        Err(
            PortMapErrorView::Protocol(
                "NAT-PMP map response too short: "@ + crate::text::decimal(buf.len()),
            ),
        )
    } else if be16(buf[2], buf[3]) != 0 {
        Err(
            PortMapErrorView::Protocol(
                "NAT-PMP map error: result code "@ + crate::text::decimal(
                    be16(buf[2], buf[3]) as nat,
                ),
            ),
        )
    } else {
        Ok((be16(buf[10], buf[11]), be32(buf[12], buf[13], buf[14], buf[15])))
    }
}

pub fn parse_natpmp_map(buf: &[u8]) -> (r: Result<(u16, u32), PortMapError>)
    ensures
        outcome(r) == natpmp_granted(buf@),
{
    if buf.len() < 16 {
        return Err(protocol_error_number("NAT-PMP map response too short: ", buf.len() as u64));
    }
    let code: u16 = read_be16(buf, 2);
    if code != 0 {
        return Err(protocol_error_number("NAT-PMP map error: result code ", code as u64));
    }
    Ok((read_be16(buf, 10), read_be32(buf, 12)))
}

/// A gateway's reply with its external address.
pub open spec fn natpmp_address_reply(epoch: u32, ip: Ipv4Addr) -> Seq<u8> {
    seq![0u8, 128, 0, 0] + be32_bytes(epoch) + seq![ip.a, ip.b, ip.c, ip.d]
}

/// A gateway's reply that grants a mapping.
pub open spec fn natpmp_map_reply(
    epoch: u32,
    internal_port: u16,
    external_port: u16,
    lifetime: u32,
) -> Seq<u8> {
    seq![0u8, 129, 0, 0] + be32_bytes(epoch) + be16_bytes(internal_port) + be16_bytes(
        external_port,
    ) + be32_bytes(lifetime)
}

/// What a gateway grants is what is read from its replies.
pub proof fn lemma_natpmp_round_trip(
    epoch: u32,
    ip: Ipv4Addr,
    internal_port: u16,
    external_port: u16,
    lifetime: u32,
)
    ensures
        natpmp_address(natpmp_address_reply(epoch, ip)) == Ok::<Ipv4Addr, PortMapErrorView>(ip),
        natpmp_granted(natpmp_map_reply(epoch, internal_port, external_port, lifetime)) == Ok::<
            (u16, u32),
            PortMapErrorView,
        >((external_port, lifetime)),
{
    let a = natpmp_address_reply(epoch, ip);
    assert(a[2] == 0 && a[3] == 0);
    let m = natpmp_map_reply(epoch, internal_port, external_port, lifetime);
    assert(m[2] == 0 && m[3] == 0);
    assert(m[10] == be16_bytes(external_port)[0] && m[11] == be16_bytes(external_port)[1]);
    crate::bytes::lemma_be16(external_port);
    let l = be32_bytes(lifetime);
    assert(m[12] == l[0] && m[13] == l[1] && m[14] == l[2] && m[15] == l[3]);
    crate::bytes::lemma_be32(lifetime);
}

/// The mapping that two NAT-PMP replies give.
pub fn natpmp_mapping(
    gateway: Ipv4Addr,
    internal_port: u16,
    address_reply: &[u8],
    map_reply: &[u8],
    now: u64,
) -> (r: Result<PortMapping, PortMapError>)
    requires
        clock_ok(now),
    ensures
        outcome(r) == match natpmp_address(address_reply@) {
            Err(e) => Err(e),
            Ok(ip) => match natpmp_granted(map_reply@) {
                Err(e) => Err(e),
                Ok((port, lifetime)) => Ok(
                    mapping_of(
                        SocketAddr::V4 { ip, port },
                        PortMapProtocol::NatPmp,
                        gateway,
                        internal_port,
                        lifetime,
                        now,
                    ),
                ),
            },
        },
{
    match parse_natpmp_address(address_reply) {
        Err(e) => Err(e),
        Ok(ip) => match parse_natpmp_map(map_reply) {
            Err(e) => Err(e),
            Ok((port, lifetime)) => Ok(
                make_mapping(
                    SocketAddr::V4 { ip, port },
                    PortMapProtocol::NatPmp,
                    gateway,
                    internal_port,
                    lifetime,
                    now,
                ),
            ),
        },
    }
}

/// What a gateway reads from a request: the version, the operation for UDP,
/// both ports and the lifetime, each in network order at its place.
pub proof fn lemma_natpmp_request_layout(internal_port: u16, external_port: u16, lifetime: u32)
    ensures
        ({
            let m = natpmp_map_message(internal_port, external_port, lifetime);
            &&& m.len() == 12
            &&& m[0] == 0 && m[1] == 1 && m[2] == 0 && m[3] == 0
            &&& m[4] * 256 + m[5] == internal_port
            &&& m[6] * 256 + m[7] == external_port
            &&& m[8] * 0x100_0000 + m[9] * 0x1_0000 + m[10] * 0x100 + m[11] == lifetime
        }),
{
    let m = natpmp_map_message(internal_port, external_port, lifetime);
    assert(m[8] == be32_bytes(lifetime)[0] && m[9] == be32_bytes(lifetime)[1] && m[10]
        == be32_bytes(lifetime)[2] && m[11] == be32_bytes(lifetime)[3]);
}

/// What is read from a gateway's reply stands in it in network order: the
/// address in the last four of twelve bytes, the external port behind the
/// internal one, then the lifetime; and nothing is read where the result code
/// is not zero.
pub proof fn lemma_natpmp_reply_layout(b: Seq<u8>)
    ensures
        natpmp_address(b) is Ok <==> b.len() >= 12 && b[2] == 0 && b[3] == 0,
        natpmp_address(b) matches Ok(ip) ==> ip.a == b[8] && ip.b == b[9] && ip.c == b[10] && ip.d
            == b[11],
        natpmp_granted(b) is Ok <==> b.len() >= 16 && b[2] == 0 && b[3] == 0,
        natpmp_granted(b) matches Ok((port, lifetime)) ==> port == b[10] * 256 + b[11] && lifetime
            == b[12] * 0x100_0000 + b[13] * 0x1_0000 + b[14] * 0x100 + b[15],
{
}

// ---------------------------------------------------------------------------
// PCP
// ---------------------------------------------------------------------------

/// A request to map a UDP port. The client's address is IPv4-mapped IPv6; any
/// external address will do, and the internal port is wanted outside too.
pub open spec fn pcp_message(
    internal_port: u16,
    local_ip: Ipv4Addr,
    nonce: Seq<u8>,
    lifetime: u32,
) -> Seq<u8> {
    seq![2u8, 1, 0, 0] + be32_bytes(lifetime) + zeros(10) + seq![
        0xffu8,
        0xff,
        local_ip.a,
        local_ip.b,
        local_ip.c,
        local_ip.d,
    ] + nonce + seq![17u8, 0, 0, 0] + be16_bytes(internal_port) + be16_bytes(internal_port)
        + zeros(16)
}

/// A message to map a port for so many seconds.
fn pcp_map_request(
    internal_port: u16,
    local_ip: Ipv4Addr,
    nonce: &[u8],
    lifetime_secs: u32,
) -> (r: Vec<u8>)
    requires
        nonce@.len() == 12,
    ensures
        r@ == pcp_message(internal_port, local_ip, nonce@, lifetime_secs),
        r@.len() == 60,
{
    let mut r: Vec<u8> = vec![PCP_VERSION, PCP_OPCODE_MAP, 0, 0];
    assert(r@ =~= seq![2u8, 1, 0, 0]);
    push_be32(&mut r, lifetime_secs);
    push_zeros(&mut r, 10);
    let client: Vec<u8> = vec![0xff, 0xff, local_ip.a, local_ip.b, local_ip.c, local_ip.d];
    assert(client@ =~= seq![0xffu8, 0xff, local_ip.a, local_ip.b, local_ip.c, local_ip.d]);
    push_all(&mut r, client.as_slice());
    push_all(&mut r, nonce);
    let proto: Vec<u8> = vec![17, 0, 0, 0];
    assert(proto@ =~= seq![17u8, 0, 0, 0]);
    push_all(&mut r, proto.as_slice());
    push_be16(&mut r, internal_port);
    push_be16(&mut r, internal_port);
    push_zeros(&mut r, 16);
    r
}

/// A request with a given nonce.
pub fn pcp_request_with(internal_port: u16, local_ip: Ipv4Addr, nonce: &[u8]) -> (r: Vec<u8>)
    requires
        nonce@.len() == 12,
    ensures
        r@ == pcp_message(internal_port, local_ip, nonce@, 7200),
        r@.len() == 60,
        r@[4] * 0x100_0000 + r@[5] * 0x1_0000 + r@[6] * 0x100 + r@[7] == 2 * 3600,
{
    proof {
        lemma_pcp_request_layout(internal_port, local_ip, nonce@, MAPPING_LIFETIME_SECS);
    }
    pcp_map_request(internal_port, local_ip, nonce, MAPPING_LIFETIME_SECS)
}

/// A request with a fresh nonce, and the nonce.
pub fn pcp_request(internal_port: u16, local_ip: Ipv4Addr) -> (r: (Vec<u8>, Vec<u8>))
    ensures
        r.1@.len() == 12,
        r.0@ == pcp_message(internal_port, local_ip, r.1@, 7200),
{
    let nonce = random_bytes(12);
    let request = pcp_request_with(internal_port, local_ip, nonce.as_slice());
    (request, nonce)
}

/// What a reply tells: external address, port and lifetime.
pub open spec fn pcp_granted(buf: Seq<u8>, nonce: Seq<u8>) -> Result<
    (Ipv4Addr, u16, u32),
    PortMapErrorView,
> {
    if buf.len() < 60 {
        Err(
            PortMapErrorView::Protocol(
                "PCP response too short: "@ + crate::text::decimal(buf.len()),
            ),
        )
    } else if buf[1] < 0x80 {
        Err(PortMapErrorView::Protocol("PCP: not a response"@))
    } else if buf[3] != 0 {
        Err(
            PortMapErrorView::Protocol(
                "PCP error: result code "@ + crate::text::decimal(buf[3] as nat),
            ),
        )
    } else if buf.subrange(24, 36) != nonce {
        Err(PortMapErrorView::Protocol("PCP nonce mismatch"@))
    } else {
        Ok(
            (
                Ipv4Addr { a: buf[56], b: buf[57], c: buf[58], d: buf[59] },
                be16(buf[42], buf[43]),
                be32(buf[4], buf[5], buf[6], buf[7]),
            ),
        )
    }
}

/// A gateway's reply that grants a mapping; the external address is
/// IPv4-mapped IPv6.
pub open spec fn pcp_reply(
    lifetime: u32,
    reserved: Seq<u8>,
    nonce: Seq<u8>,
    internal_port: u16,
    external_port: u16,
    ip: Ipv4Addr,
) -> Seq<u8> {
    seq![2u8, 0x81, 0, 0] + be32_bytes(lifetime) + reserved + nonce + seq![17u8, 0, 0, 0]
        + be16_bytes(internal_port) + be16_bytes(external_port) + zeros(10) + seq![
        0xffu8,
        0xff,
        ip.a,
        ip.b,
        ip.c,
        ip.d,
    ]
}

/// What a gateway grants under the nonce of the request is what is read from
/// its reply.
pub proof fn lemma_pcp_round_trip(
    lifetime: u32,
    reserved: Seq<u8>,
    nonce: Seq<u8>,
    internal_port: u16,
    external_port: u16,
    ip: Ipv4Addr,
)
    requires
        reserved.len() == 16,
        nonce.len() == 12,
    ensures
        pcp_granted(
            pcp_reply(lifetime, reserved, nonce, internal_port, external_port, ip),
            nonce,
        ) == Ok::<(Ipv4Addr, u16, u32), PortMapErrorView>((ip, external_port, lifetime)),
{
    let b = pcp_reply(lifetime, reserved, nonce, internal_port, external_port, ip);
    assert(b.len() == 60);
    assert(b.subrange(24, 36) =~= nonce);
    let l = be32_bytes(lifetime);
    assert(b[4] == l[0] && b[5] == l[1] && b[6] == l[2] && b[7] == l[3]);
    crate::bytes::lemma_be32(lifetime);
    assert(b[42] == be16_bytes(external_port)[0] && b[43] == be16_bytes(external_port)[1]);
    crate::bytes::lemma_be16(external_port);
}

/// A reply is only accepted with the nonce of the request.
pub proof fn lemma_pcp_nonce(buf: Seq<u8>, nonce: Seq<u8>, other: Seq<u8>)
    requires
        pcp_granted(buf, nonce) is Ok,
        other != nonce,
    ensures
        pcp_granted(buf, other) == Err::<(Ipv4Addr, u16, u32), PortMapErrorView>(
            PortMapErrorView::Protocol("PCP nonce mismatch"@),
        ),
{
}

/// A request is not mistaken for a reply.
pub proof fn lemma_pcp_request_is_no_reply(
    internal_port: u16,
    local_ip: Ipv4Addr,
    nonce: Seq<u8>,
    lifetime: u32,
)
    requires
        nonce.len() == 12,
    ensures
        pcp_granted(pcp_message(internal_port, local_ip, nonce, lifetime), nonce) is Err,
{
    let m = pcp_message(internal_port, local_ip, nonce, lifetime);
    assert(m[1] == 1u8);
}

/// What a gateway reads from a request: version and operation, the lifetime,
/// the client's address as IPv4-mapped IPv6, the nonce, the protocol UDP, and
/// the internal port, also as the external one that is wanted; any external
/// address will do.
pub proof fn lemma_pcp_request_layout(
    internal_port: u16,
    local_ip: Ipv4Addr,
    nonce: Seq<u8>,
    lifetime: u32,
)
    requires
        nonce.len() == 12,
    ensures
        ({
            let m = pcp_message(internal_port, local_ip, nonce, lifetime);
            &&& m.len() == 60
            &&& m[0] == 2 && m[1] == 1 && m[2] == 0 && m[3] == 0
            &&& m[4] * 0x100_0000 + m[5] * 0x1_0000 + m[6] * 0x100 + m[7] == lifetime
            &&& forall|i: int| 8 <= i < 18 ==> #[trigger] m[i] == 0
            &&& m[18] == 0xff && m[19] == 0xff
            &&& m[20] == local_ip.a && m[21] == local_ip.b && m[22] == local_ip.c && m[23]
                == local_ip.d
            &&& m.subrange(24, 36) == nonce
            &&& m[36] == 17 && m[37] == 0 && m[38] == 0 && m[39] == 0
            &&& m[40] * 256 + m[41] == internal_port
            &&& m[42] * 256 + m[43] == internal_port
            &&& forall|i: int| 44 <= i < 60 ==> #[trigger] m[i] == 0
        }),
{
    let m = pcp_message(internal_port, local_ip, nonce, lifetime);
    assert(m[4] == be32_bytes(lifetime)[0] && m[5] == be32_bytes(lifetime)[1] && m[6]
        == be32_bytes(lifetime)[2] && m[7] == be32_bytes(lifetime)[3]);
    assert(m[40] == be16_bytes(internal_port)[0] && m[41] == be16_bytes(internal_port)[1]);
    assert(m[42] == be16_bytes(internal_port)[0] && m[43] == be16_bytes(internal_port)[1]);
    assert(m.subrange(24, 36) =~= nonce);
}

/// A reply is accepted exactly where it is long enough, marked as a reply,
/// without an error and under the nonce of the request.
pub proof fn lemma_pcp_accepted(b: Seq<u8>, nonce: Seq<u8>)
    ensures
        pcp_granted(b, nonce) is Ok <==> b.len() >= 60 && b[1] >= 128 && b[3] == 0 && b.subrange(
            24,
            36,
        ) == nonce,
        pcp_granted(b, nonce) matches Ok((ip, port, lifetime)) ==> {
            &&& ip.a == b[56] && ip.b == b[57] && ip.c == b[58] && ip.d == b[59]
            &&& port == b[42] * 256 + b[43]
            &&& lifetime == b[4] * 0x100_0000 + b[5] * 0x1_0000 + b[6] * 0x100 + b[7]
        },
{
}

/// The mapping that a PCP reply gives.
pub fn pcp_mapping(
    gateway: Ipv4Addr,
    internal_port: u16,
    reply: &[u8],
    nonce: &[u8],
    now: u64,
) -> (r: Result<PortMapping, PortMapError>)
    requires
        clock_ok(now),
    ensures
        outcome(r) == match pcp_granted(reply@, nonce@) {
            Err(e) => Err(e),
            Ok((ip, port, lifetime)) => Ok(
                mapping_of(
                    SocketAddr::V4 { ip, port },
                    PortMapProtocol::Pcp,
                    gateway,
                    internal_port,
                    lifetime,
                    now,
                ),
            ),
        },
{
    if reply.len() < 60 {
        return Err(protocol_error_number("PCP response too short: ", reply.len() as u64));
    }
    if reply[1] < 0x80 {
        return Err(protocol_error("PCP: not a response"));
    }
    if reply[3] != 0 {
        return Err(protocol_error_number("PCP error: result code ", reply[3] as u64));
    }
    let echoed = copy_bytes(reply, 24, 36);
    if !same_bytes(echoed.as_slice(), nonce) {
        return Err(protocol_error("PCP nonce mismatch"));
    }
    let ip = Ipv4Addr { a: reply[56], b: reply[57], c: reply[58], d: reply[59] };
    let port: u16 = read_be16(reply, 42);
    let lifetime: u32 = read_be32(reply, 4);
    Ok(
        make_mapping(
            SocketAddr::V4 { ip, port },
            PortMapProtocol::Pcp,
            gateway,
            internal_port,
            lifetime,
            now,
        ),
    )
}

// ---------------------------------------------------------------------------
// UPnP: discovery and HTTP
// ---------------------------------------------------------------------------

/// Where the search for a gateway is sent.
pub fn ssdp_addr() -> (r: SocketAddr)
    ensures
        r == (SocketAddr::V4 { ip: Ipv4Addr { a: 239, b: 255, c: 255, d: 250 }, port: 1900 }),
{
    SocketAddr::V4 { ip: Ipv4Addr { a: 239, b: 255, c: 255, d: 250 }, port: 1900 }
}

/// The search for a gateway device.
pub fn msearch_request() -> (r: String)
    ensures
        r@
            == "M-SEARCH * HTTP/1.1\r\nHOST: 239.255.255.250:1900\r\nMAN: \"ssdp:discover\"\r\nMX: 2\r\nST: urn:schemas-upnp-org:device:InternetGatewayDevice:1\r\n\r\n"@,
{
    String::from_str(
        "M-SEARCH * HTTP/1.1\r\nHOST: 239.255.255.250:1900\r\nMAN: \"ssdp:discover\"\r\nMX: 2\r\nST: urn:schemas-upnp-org:device:InternetGatewayDevice:1\r\n\r\n",
    )
}

/// The value of the first `LOCATION` header, in any case.
pub open spec fn location(ls: Seq<Seq<char>>) -> Option<Seq<char>>
    decreases ls.len(),
{
    if ls.len() == 0 {
        None
    } else if crate::text::starts_with(crate::text::lower(ls[0]), "location:"@) {
        Some(
            crate::text::trim(
                ls[0].skip(crate::text::index_of_from(ls[0], 0, ':') + 1),
            ),
        )
    } else {
        location(ls.skip(1))
    }
}

fn lower_exec(s: &[char]) -> (r: Vec<char>)
    ensures
        r@ == crate::text::lower(s@),
{
    let mut r: Vec<char> = Vec::new();
    let mut i: usize = 0;
    while i < s.len()
        invariant
            i <= s@.len(),
            r@ == crate::text::lower(s@).take(i as int),
        decreases s.len() - i,
    {
        r.push(lower_char_exec(s[i]));
        i += 1;
        assert(r@ =~= crate::text::lower(s@).take(i as int));
    }
    assert(r@ =~= crate::text::lower(s@));
    r
}

/// Where a gateway says that its description is.
pub fn find_location(response: &str) -> (r: Result<String, PortMapError>)
    ensures
        match r {
            Ok(l) => location(crate::text::lines(response@)) == Some(l@),
            Err(e) => location(crate::text::lines(response@)) is None && e@
                == PortMapErrorView::Protocol("no LOCATION in SSDP response"@),
        },
{
    let ls = lines_exec(chars_of(response).as_slice());
    let prefix = chars_of("location:");
    let ghost view = crate::text::pieces_view(ls@);
    let mut i: usize = 0;
    assert(view.skip(0) =~= view);
    while i < ls.len()
        invariant
            i <= ls@.len(),
            view == crate::text::pieces_view(ls@),
            view == crate::text::lines(response@),
            prefix@ == "location:"@,
            location(view) == location(view.skip(i as int)),
        decreases ls.len() - i,
    {
        assert(view.skip(i as int)[0] == ls@[i as int]@);
        assert(view.skip(i as int).skip(1) =~= view.skip(i + 1));
        let low = lower_exec(ls[i].as_slice());
        if crate::text::matches_at_exec(low.as_slice(), 0, prefix.as_slice()) {
            let line = &ls[i];
            let k: usize = index_of_from_exec(line.as_slice(), 0, ':');
            proof {
                lemma_colon_in_location(line@);
            }
            let value = copy_range(line.as_slice(), k + 1, line.len());
            assert(value@ =~= line@.skip(k + 1));
            return Ok(string_of(trim_exec(value.as_slice()).as_slice()));
        }
        i += 1;
    }
    Err(protocol_error("no LOCATION in SSDP response"))
}

/// A line that starts with `location:` in any case holds a colon.
proof fn lemma_colon_in_location(line: Seq<char>)
    requires
        crate::text::starts_with(crate::text::lower(line), "location:"@),
    ensures
        crate::text::index_of_from(line, 0, ':') < line.len(),
{
    reveal_strlit("location:");
    let low = crate::text::lower(line);
    let sub = low.subrange(0, 9);
    assert(sub == "location:"@);
    assert(sub[8] == ':');
    assert(low[8] == ':');
    assert(low[8] == crate::text::lower_char(line[8]));
    assert(line[8] == ':');
    crate::text::lemma_index_of_from(line, 0, ':');
}

/// A plain HTTP URL taken apart.
pub struct HttpTarget {
    pub addr: SocketAddr,
    pub host_port: String,
    pub path: String,
}

/// Host and path of a URL without its scheme.
pub open spec fn host_of(rest: Seq<char>) -> Seq<char> {
    rest.take(crate::text::index_of_from(rest, 0, '/'))
}

pub open spec fn path_of(rest: Seq<char>) -> Seq<char> {
    let k = crate::text::index_of_from(rest, 0, '/');
    if k < rest.len() {
        rest.skip(k)
    } else {
        "/"@
    }
}

/// The host with a port, 80 where none is given.
pub open spec fn with_port(host: Seq<char>) -> Seq<char> {
    if crate::text::index_of_from(host, 0, ':') < host.len() {
        host
    } else {
        host + ":80"@
    }
}

/// Takes an `http://` URL apart; the host must be an address.
pub fn http_target(url: &str) -> (r: Result<HttpTarget, PortMapError>)
    ensures
        match crate::text::strip_prefix(crate::text::trim(url@), "http://"@) {
            None => outcome(r) == Err::<HttpTarget, PortMapErrorView>(
                PortMapErrorView::Protocol("non-HTTP URL: "@ + crate::text::trim(url@)),
            ),
            Some(rest) => match crate::net::parse_socket(with_port(host_of(rest))) {
                None => outcome(r) == Err::<HttpTarget, PortMapErrorView>(
                    PortMapErrorView::Protocol(
                        "parse "@ + with_port(host_of(rest)) + ": invalid socket address syntax"@,
                    ),
                ),
                Some(addr) => {
                    &&& r matches Ok(t)
                    &&& t.addr == addr
                    &&& t.host_port@ == host_of(rest)
                    &&& t.path@ == path_of(rest)
                },
            },
        },
{
    let t = trim_exec(chars_of(url).as_slice());
    match strip_prefix_exec(t.as_slice(), "http://") {
        None => {
            let mut m = String::from_str("non-HTTP URL: ");
            m.append(string_of(t.as_slice()).as_str());
            Err(PortMapError::Protocol(m))
        },
        Some(rest) => {
            let k: usize = index_of_from_exec(rest.as_slice(), 0, '/');
            let host = copy_range(rest.as_slice(), 0, k);
            assert(host@ =~= host_of(rest@));
            let path = if k < rest.len() {
                let p = copy_range(rest.as_slice(), k, rest.len());
                assert(p@ =~= path_of(rest@));
                p
            } else {
                chars_of("/")
            };
            let host_port = string_of(host.as_slice());
            let mut full = string_of(host.as_slice());
            if index_of_from_exec(host.as_slice(), 0, ':') >= host.len() {
                full.append(":80");
            }
            match SocketAddr::parse(full.as_str()) {
                Some(addr) => Ok(
                    HttpTarget { addr, host_port, path: string_of(path.as_slice()) },
                ),
                None => {
                    let mut m = String::from_str("parse ");
                    m.append(full.as_str());
                    m.append(": invalid socket address syntax");
                    Err(PortMapError::Protocol(m))
                },
            }
        },
    }
}

pub open spec fn get_text(host_port: Seq<char>, path: Seq<char>) -> Seq<char> {
    "GET "@ + path + " HTTP/1.1\r\nHost: "@ + host_port + "\r\nConnection: close\r\n\r\n"@
}

/// The request for a document.
pub fn http_get_request(target: &HttpTarget) -> (r: String)
    ensures
        r@ == get_text(target.host_port@, target.path@),
{
    let mut m = String::from_str("GET ");
    m.append(target.path.as_str());
    m.append(" HTTP/1.1\r\nHost: ");
    m.append(target.host_port.as_str());
    m.append("\r\nConnection: close\r\n\r\n");
    m
}

pub open spec fn soap_envelope(body: Seq<char>) -> Seq<char> {
    "<?xml version=\"1.0\"?><s:Envelope xmlns:s=\"http://schemas.xmlsoap.org/soap/envelope/\" s:encodingStyle=\"http://schemas.xmlsoap.org/soap/encoding/\"><s:Body>"@
        + body + "</s:Body></s:Envelope>"@
}

/// The SOAP request; its length is counted in bytes.
pub open spec fn soap_text(
    host_port: Seq<char>,
    path: Seq<char>,
    action: Seq<char>,
    body: Seq<char>,
) -> Seq<char> {
    "POST "@ + path + " HTTP/1.1\r\nHost: "@ + host_port
        + "\r\nContent-Type: text/xml; charset=\"utf-8\"\r\nSOAPAction: \""@ + action
        + "\"\r\nContent-Length: "@ + crate::text::decimal(
        vstd::utf8::encode_utf8(soap_envelope(body)).len(),
    ) + "\r\nConnection: close\r\n\r\n"@ + soap_envelope(body)
}

pub fn soap_request(target: &HttpTarget, action: &str, body: &str) -> (r: String)
    ensures
        r@ == soap_text(target.host_port@, target.path@, action@, body@),
{
    let mut envelope = String::from_str(
        "<?xml version=\"1.0\"?><s:Envelope xmlns:s=\"http://schemas.xmlsoap.org/soap/envelope/\" s:encodingStyle=\"http://schemas.xmlsoap.org/soap/encoding/\"><s:Body>",
    );
    envelope.append(body);
    envelope.append("</s:Body></s:Envelope>");
    assert(envelope@ =~= soap_envelope(body@));
    let mut m = String::from_str("POST ");
    m.append(target.path.as_str());
    m.append(" HTTP/1.1\r\nHost: ");
    m.append(target.host_port.as_str());
    m.append("\r\nContent-Type: text/xml; charset=\"utf-8\"\r\nSOAPAction: \"");
    m.append(action);
    m.append("\"\r\nContent-Length: ");
    let size: usize = envelope.as_str().as_bytes().len();
    assert(size == vstd::utf8::encode_utf8(soap_envelope(body@)).len());
    push_decimal(&mut m, size as u64);
    m.append("\r\nConnection: close\r\n\r\n");
    m.append(envelope.as_str());
    assert(m@ =~= soap_text(target.host_port@, target.path@, action@, body@));
    m
}

/// What follows the headers; everything, where no end of them is seen.
pub open spec fn body_of(full: Seq<char>) -> Seq<char> {
    match crate::text::find_from(full, 0, "\r\n\r\n"@) {
        Some(k) => full.skip(k + 4),
        None => full,
    }
}

pub fn http_body(full: &str) -> (r: String)
    ensures
        r@ == body_of(full@),
{
    let cs = chars_of(full);
    let end = chars_of("\r\n\r\n");
    proof {
        reveal_strlit("\r\n\r\n");
    }
    match find_from_exec(cs.as_slice(), 0, end.as_slice()) {
        Some(k) => {
            let b = copy_range(cs.as_slice(), k + 4, cs.len());
            assert(b@ =~= full@.skip(k + 4));
            string_of(b.as_slice())
        },
        None => string_of(cs.as_slice()),
    }
}

// ---------------------------------------------------------------------------
// UPnP: the services of a gateway
// ---------------------------------------------------------------------------

/// The control URL that follows the first mention of a service type.
pub open spec fn control_path(xml: Seq<char>, service: Seq<char>) -> Option<Seq<char>> {
    match crate::text::find_from(xml, 0, service) {
        None => None,
        Some(pos) => match crate::text::find_from(xml, pos, "<controlURL>"@) {
            None => None,
            Some(tag) => match crate::text::find_from(xml, tag + 12, "</controlURL>"@) {
                None => None,
                Some(end) => Some(xml.subrange(tag + 12, end)),
            },
        },
    }
}

/// A control URL in full: one that is relative is on the host of `base_url`.
pub open spec fn full_url(path: Seq<char>, base_url: Seq<char>) -> Seq<char> {
    if crate::text::starts_with(path, "http://"@) || crate::text::starts_with(path, "https://"@) {
        path
    } else {
        "http://"@ + host_of(without_scheme(base_url)) + path
    }
}

pub open spec fn without_scheme(url: Seq<char>) -> Seq<char> {
    match crate::text::strip_prefix(url, "http://"@) {
        Some(rest) => rest,
        None => url,
    }
}

/// The control URL of the best connection service that has one.
pub open spec fn control_url(xml: Seq<char>, base_url: Seq<char>) -> Option<Seq<char>> {
    match control_path(xml, "WANIPConnection:1"@) {
        Some(p) => Some(full_url(p, base_url)),
        None => match control_path(xml, "WANIPConnection:2"@) {
            Some(p) => Some(full_url(p, base_url)),
            None => match control_path(xml, "WANPPPConnection:1"@) {
                Some(p) => Some(full_url(p, base_url)),
                None => None,
            },
        },
    }
}

fn control_path_exec(xml: &Vec<char>, service: &str) -> (r: Option<Vec<char>>)
    ensures
        match r {
            Some(p) => control_path(xml@, service@) == Some(p@),
            None => control_path(xml@, service@) is None,
        },
{
    proof {
        reveal_strlit("<controlURL>");
    }
    let st = chars_of(service);
    let open_tag = chars_of("<controlURL>");
    let close_tag = chars_of("</controlURL>");
    match find_from_exec(xml.as_slice(), 0, st.as_slice()) {
        None => None,
        Some(pos) => match find_from_exec(xml.as_slice(), pos, open_tag.as_slice()) {
            None => None,
            Some(tag) => {
                match find_from_exec(xml.as_slice(), tag + 12, close_tag.as_slice()) {
                    None => None,
                    Some(end) => {
                        proof {
                            crate::text::lemma_find_from(xml@, tag + 12, close_tag@);
                        }
                        Some(copy_range(xml.as_slice(), tag + 12, end))
                    },
                }
            },
        },
    }
}

fn host_exec(rest: &[char]) -> (r: Vec<char>)
    ensures
        r@ == host_of(rest@),
{
    let k: usize = index_of_from_exec(rest, 0, '/');
    let host = copy_range(rest, 0, k);
    assert(host@ =~= host_of(rest@));
    host
}

fn without_scheme_exec(url: &[char]) -> (r: Vec<char>)
    ensures
        r@ == without_scheme(url@),
{
    match strip_prefix_exec(url, "http://") {
        Some(rest) => rest,
        None => {
            let c = copy_range(url, 0, url.len());
            assert(c@ =~= url@);
            c
        },
    }
}

fn full_url_exec(path: &Vec<char>, base_url: &str) -> (r: String)
    ensures
        r@ == full_url(path@, base_url@),
{
    let http = chars_of("http://");
    let https = chars_of("https://");
    if crate::text::matches_at_exec(path.as_slice(), 0, http.as_slice())
        || crate::text::matches_at_exec(path.as_slice(), 0, https.as_slice()) {
        return string_of(path.as_slice());
    }
    let base = without_scheme_exec(chars_of(base_url).as_slice());
    let host = host_exec(base.as_slice());
    let mut m = String::from_str("http://");
    m.append(string_of(host.as_slice()).as_str());
    m.append(string_of(path.as_slice()).as_str());
    m
}

/// Finds the control URL in a device description that came from `base_url`.
pub fn extract_control_url(xml: &str, base_url: &str) -> (r: Result<String, PortMapError>)
    ensures
        match r {
            Ok(u) => control_url(xml@, base_url@) == Some(u@),
            Err(e) => control_url(xml@, base_url@) is None && e@ == PortMapErrorView::Protocol(
                "no WANIPConnection/WANPPPConnection service in device description"@,
            ),
        },
{
    let cs = chars_of(xml);
    if let Some(p) = control_path_exec(&cs, "WANIPConnection:1") {
        return Ok(full_url_exec(&p, base_url));
    }
    if let Some(p) = control_path_exec(&cs, "WANIPConnection:2") {
        return Ok(full_url_exec(&p, base_url));
    }
    if let Some(p) = control_path_exec(&cs, "WANPPPConnection:1") {
        return Ok(full_url_exec(&p, base_url));
    }
    Err(protocol_error("no WANIPConnection/WANPPPConnection service in device description"))
}

/// What is asked of the gateway for its external address.
pub fn external_ip_body() -> (r: &'static str)
    ensures
        r@
            == "<u:GetExternalIPAddress xmlns:u=\"urn:schemas-upnp-org:service:WANIPConnection:1\"/>"@,
{
    "<u:GetExternalIPAddress xmlns:u=\"urn:schemas-upnp-org:service:WANIPConnection:1\"/>"
}

pub fn external_ip_action() -> (r: &'static str)
    ensures
        r@ == "urn:schemas-upnp-org:service:WANIPConnection:1#GetExternalIPAddress"@,
{
    "urn:schemas-upnp-org:service:WANIPConnection:1#GetExternalIPAddress"
}

pub fn add_mapping_action() -> (r: &'static str)
    ensures
        r@ == "urn:schemas-upnp-org:service:WANIPConnection:1#AddPortMapping"@,
{
    "urn:schemas-upnp-org:service:WANIPConnection:1#AddPortMapping"
}

/// The external address in a reply.
pub open spec fn external_ip(response: Seq<char>) -> Result<Ipv4Addr, PortMapErrorView> {
    match crate::text::find_from(response, 0, "<NewExternalIPAddress>"@) {
        None => Err(PortMapErrorView::Protocol("no NewExternalIPAddress in response"@)),
        Some(tag) => match crate::text::find_from(response, tag + 22, "</NewExternalIPAddress>"@) {
            None => Err(PortMapErrorView::Protocol("malformed NewExternalIPAddress"@)),
            Some(end) => match crate::net::parse_v4(response.subrange(tag + 22, end)) {
                Some(ip) => Ok(ip),
                None => Err(
                    PortMapErrorView::Protocol("parse external IP: invalid IPv4 address syntax"@),
                ),
            },
        },
    }
}

pub fn parse_external_ip(response: &str) -> (r: Result<Ipv4Addr, PortMapError>)
    ensures
        outcome(r) == external_ip(response@),
{
    proof {
        reveal_strlit("<NewExternalIPAddress>");
    }
    let cs = chars_of(response);
    let open_tag = chars_of("<NewExternalIPAddress>");
    let close_tag = chars_of("</NewExternalIPAddress>");
    match find_from_exec(cs.as_slice(), 0, open_tag.as_slice()) {
        None => Err(protocol_error("no NewExternalIPAddress in response")),
        Some(tag) => match find_from_exec(cs.as_slice(), tag + 22, close_tag.as_slice()) {
            None => Err(protocol_error("malformed NewExternalIPAddress")),
            Some(end) => {
                proof {
                    crate::text::lemma_find_from(cs@, tag + 22, close_tag@);
                }
                let t = copy_range(cs.as_slice(), tag + 22, end);
                match crate::net::parse_v4_exec(t.as_slice()) {
                    Some(ip) => Ok(ip),
                    None => Err(protocol_error("parse external IP: invalid IPv4 address syntax")),
                }
            },
        },
    }
}

pub open spec fn add_mapping_text(
    external_port: u16,
    internal_port: u16,
    internal_client: Ipv4Addr,
    lease: u32,
) -> Seq<char> {
    "<u:AddPortMapping xmlns:u=\"urn:schemas-upnp-org:service:WANIPConnection:1\"><NewRemoteHost></NewRemoteHost><NewExternalPort>"@
        + crate::text::decimal(external_port as nat)
        + "</NewExternalPort><NewProtocol>UDP</NewProtocol><NewInternalPort>"@
        + crate::text::decimal(internal_port as nat)
        + "</NewInternalPort><NewInternalClient>"@ + v4_text(internal_client)
        + "</NewInternalClient><NewEnabled>1</NewEnabled><NewPortMappingDescription>WarzonePhone</NewPortMappingDescription><NewLeaseDuration>"@
        + crate::text::decimal(lease as nat) + "</NewLeaseDuration></u:AddPortMapping>"@
}

/// The request for a mapping.
pub fn add_mapping_body(
    external_port: u16,
    internal_port: u16,
    internal_client: Ipv4Addr,
    lease_duration: u32,
) -> (r: String)
    ensures
        r@ == add_mapping_text(external_port, internal_port, internal_client, lease_duration),
{
    let mut m = String::from_str(
        "<u:AddPortMapping xmlns:u=\"urn:schemas-upnp-org:service:WANIPConnection:1\"><NewRemoteHost></NewRemoteHost><NewExternalPort>",
    );
    push_decimal(&mut m, external_port as u64);
    m.append("</NewExternalPort><NewProtocol>UDP</NewProtocol><NewInternalPort>");
    push_decimal(&mut m, internal_port as u64);
    m.append("</NewInternalPort><NewInternalClient>");
    internal_client.push_text(&mut m);
    m.append(
        "</NewInternalClient><NewEnabled>1</NewEnabled><NewPortMappingDescription>WarzonePhone</NewPortMappingDescription><NewLeaseDuration>",
    );
    push_decimal(&mut m, lease_duration as u64);
    m.append("</NewLeaseDuration></u:AddPortMapping>");
    assert(m@ =~= add_mapping_text(external_port, internal_port, internal_client, lease_duration));
    m
}

pub open spec fn soap_fault(response: Seq<char>) -> bool {
    crate::text::contains_text(response, "<s:Fault>"@) || crate::text::contains_text(
        response,
        "errorCode"@,
    )
}

/// Whether the gateway granted the mapping; a refusal is quoted, up to 200
/// bytes, which may not end within a character.
pub fn check_add_mapping(response: &str) -> (r: Result<(), PortMapError>)
    requires
        soap_fault(response@) ==> crate::text::cuts_whole(response@, 200),
    ensures
        outcome(r) == if soap_fault(response@) {
            Err(
                PortMapErrorView::Protocol(
                    "AddPortMapping SOAP fault: "@ + crate::text::byte_prefix(response@, 200),
                ),
            )
        } else {
            Ok::<(), PortMapErrorView>(())
        },
{
    let cs = chars_of(response);
    let fault = chars_of("<s:Fault>");
    let code = chars_of("errorCode");
    if contains_text_exec(cs.as_slice(), fault.as_slice()) || contains_text_exec(
        cs.as_slice(),
        code.as_slice(),
    ) {
        let mut m = String::from_str("AddPortMapping SOAP fault: ");
        m.append(string_of(byte_prefix_exec(cs.as_slice(), 200).as_slice()).as_str());
        return Err(PortMapError::Protocol(m));
    }
    Ok(())
}

/// The host of a URL, up to a port.
pub open spec fn url_host(url: Seq<char>) -> Seq<char> {
    let host = host_of(without_scheme(url));
    host.take(crate::text::index_of_from(host, 0, ':'))
}

/// The address of a URL's host, if it is an IPv4 address.
pub fn url_host_to_ip(url: &str) -> (r: Option<Ipv4Addr>)
    ensures
        r == crate::net::parse_v4(url_host(url@)),
{
    let rest = without_scheme_exec(chars_of(url).as_slice());
    let host_port = host_exec(rest.as_slice());
    let k: usize = index_of_from_exec(host_port.as_slice(), 0, ':');
    let host = copy_range(host_port.as_slice(), 0, k);
    assert(host@ =~= url_host(url@));
    crate::net::parse_v4_exec(host.as_slice())
}

/// The mapping that UPnP gives: the internal port outside too, for the time
/// asked for. A gateway whose address is not known is `0.0.0.0`.
pub fn upnp_mapping(external_ip: Ipv4Addr, internal_port: u16, location: &str, now: u64) -> (r:
    PortMapping)
    requires
        clock_ok(now),
    ensures
        r == mapping_of(
            SocketAddr::V4 { ip: external_ip, port: internal_port },
            PortMapProtocol::UPnP,
            match crate::net::parse_v4(url_host(location@)) {
                Some(ip) => ip,
                None => Ipv4Addr { a: 0, b: 0, c: 0, d: 0 },
            },
            internal_port,
            7200,
            now,
        ),
{
    let gateway = match url_host_to_ip(location) {
        Some(ip) => ip,
        None => Ipv4Addr { a: 0, b: 0, c: 0, d: 0 },
    };
    make_mapping(
        SocketAddr::V4 { ip: external_ip, port: internal_port },
        PortMapProtocol::UPnP,
        gateway,
        internal_port,
        MAPPING_LIFETIME_SECS,
        now,
    )
}

// ---------------------------------------------------------------------------
// Laws of the UPnP texts
// ---------------------------------------------------------------------------

/// A gateway's address is read from between its tags, whatever stands around
/// them.
pub proof fn lemma_external_ip_round_trip(before: Seq<char>, ip: Ipv4Addr, after: Seq<char>)
    requires
        crate::text::ends_before(before, "<NewExternalIPAddress>"@),
    ensures
        external_ip(
            before + "<NewExternalIPAddress>"@ + v4_text(ip) + "</NewExternalIPAddress>"@ + after,
        ) == Ok::<Ipv4Addr, PortMapErrorView>(ip),
{
    reveal_strlit("<NewExternalIPAddress>");
    reveal_strlit("</NewExternalIPAddress>");
    let open = "<NewExternalIPAddress>"@;
    let close = "</NewExternalIPAddress>"@;
    let text = v4_text(ip);
    let s = before + open + text + close + after;
    let none = Seq::<char>::empty();
    assert(s =~= none + before + open + (text + close + after));
    crate::text::lemma_find_after(none, before, open, text + close + after);
    crate::net::lemma_v4_text_chars(ip);
    crate::text::lemma_ends_before(text, close);
    assert(s =~= (before + open) + text + close + after);
    crate::text::lemma_find_after(before + open, text, close, after);
    let tag = before.len() as int;
    assert(s.subrange(tag + 22, tag + 22 + text.len()) =~= text);
    crate::net::lemma_v4_round_trip(ip);
}

/// The control URL of a service is read from between the first such tags
/// after the service is first named.
pub proof fn lemma_control_path_found(
    before: Seq<char>,
    service: Seq<char>,
    between: Seq<char>,
    path: Seq<char>,
    after: Seq<char>,
)
    requires
        crate::text::ends_before(before, service),
        crate::text::ends_before(service + between, "<controlURL>"@),
        crate::text::ends_before(path, "</controlURL>"@),
    ensures
        control_path(
            before + service + between + "<controlURL>"@ + path + "</controlURL>"@ + after,
            service,
        ) == Some(path),
{
    reveal_strlit("<controlURL>");
    let open = "<controlURL>"@;
    let close = "</controlURL>"@;
    let s = before + service + between + open + path + close + after;
    let none = Seq::<char>::empty();
    let rest = between + open + path + close + after;
    assert(s =~= none + before + service + rest);
    crate::text::lemma_find_after(none, before, service, rest);
    assert(s =~= before + (service + between) + open + (path + close + after));
    crate::text::lemma_find_after(before, service + between, open, path + close + after);
    let front = before + service + between + open;
    assert(s =~= front + path + close + after);
    crate::text::lemma_find_after(front, path, close, after);
    let tag = front.len() - 12;
    assert(s.subrange(tag + 12, tag + 12 + path.len()) =~= path);
}

proof fn lemma_index_of_first(before: Seq<char>, sep: char, after: Seq<char>)
    requires
        crate::text::has_no(before, sep),
    ensures
        crate::text::index_of_from(before + seq![sep] + after, 0, sep) == before.len(),
{
    let s = before + seq![sep] + after;
    crate::text::lemma_index_of_from(s, 0, sep);
    let k = crate::text::index_of_from(s, 0, sep);
    assert(s[before.len() as int] == sep);
    if k < before.len() {
        assert(s[k] == before[k]);
    }
}

/// A URL with a path is taken apart at the first slash after the host, and
/// its host at the colon before the port.
pub proof fn lemma_url_parts(host: Seq<char>, port: Seq<char>, path: Seq<char>)
    requires
        crate::text::has_no(host, '/'),
        crate::text::has_no(host, ':'),
        crate::text::has_no(port, '/'),
    ensures
        ({
            let host_port = host + seq![':'] + port;
            let rest = host_port + seq!['/'] + path;
            &&& host_of(rest) == host_port
            &&& path_of(rest) == seq!['/'] + path
            &&& with_port(host_port) == host_port
            &&& with_port(host) == host + ":80"@
            &&& host_of(host_port) == host_port
            &&& path_of(host_port) == "/"@
            &&& without_scheme("http://"@ + rest) == rest
            &&& url_host("http://"@ + rest) == host
        }),
{
    reveal_strlit("http://");
    let host_port = host + seq![':'] + port;
    let rest = host_port + seq!['/'] + path;
    assert forall|i: int| 0 <= i < host_port.len() implies #[trigger] host_port[i] != '/' by {
        if i < host.len() {
            assert(host_port[i] == host[i]);
        } else if i > host.len() {
            assert(host_port[i] == port[i - host.len() - 1]);
        }
    }
    lemma_index_of_first(host_port, '/', path);
    assert(rest.take(host_port.len() as int) =~= host_port);
    assert(rest.skip(host_port.len() as int) =~= seq!['/'] + path);
    lemma_index_of_first(host, ':', port);
    crate::text::lemma_index_of_from(host, 0, ':');
    crate::text::lemma_index_of_from(host_port, 0, '/');
    assert(host_port.take(host_port.len() as int) =~= host_port);
    let url = "http://"@ + rest;
    assert(url.subrange(0, 7) =~= "http://"@);
    assert(url.skip(7) =~= rest);
    assert(host_port.take(host.len() as int) =~= host);
}

/// A control URL that is only a path is on the host, and the port, of the
/// description; one with a scheme is taken as it is.
pub proof fn lemma_full_url(host: Seq<char>, port: Seq<char>, base: Seq<char>, path: Seq<char>)
    requires
        crate::text::has_no(host, '/'),
        crate::text::has_no(host, ':'),
        crate::text::has_no(port, '/'),
    ensures
        ({
            let base_url = "http://"@ + (host + seq![':'] + port + seq!['/'] + base);
            &&& full_url(seq!['/'] + path, base_url) == "http://"@ + host + seq![':'] + port
                + seq!['/'] + path
            &&& full_url("http://"@ + path, base_url) == "http://"@ + path
            &&& full_url("https://"@ + path, base_url) == "https://"@ + path
        }),
{
    reveal_strlit("http://");
    reveal_strlit("https://");
    lemma_url_parts(host, port, base);
    let relative = seq!['/'] + path;
    assert(relative[0] == '/');
    if crate::text::starts_with(relative, "http://"@) {
        assert(relative.subrange(0, 7)[0] == relative[0]);
    }
    if crate::text::starts_with(relative, "https://"@) {
        assert(relative.subrange(0, 8)[0] == relative[0]);
    }
    assert(("http://"@ + path).subrange(0, 7) =~= "http://"@);
    assert(("https://"@ + path).subrange(0, 8) =~= "https://"@);
    assert("http://"@ + (host + seq![':'] + port) + relative =~= "http://"@ + host + seq![':']
        + port + seq!['/'] + path);
}

/// The location is what follows the first header of that name, in whatever
/// case it is written and whatever white space stands around the value.
pub proof fn lemma_location_found(
    others: Seq<Seq<char>>,
    name: Seq<char>,
    pad: Seq<char>,
    value: Seq<char>,
    end: Seq<char>,
    rest: Seq<Seq<char>>,
)
    requires
        forall|i: int|
            0 <= i < others.len() ==> !crate::text::starts_with(
                crate::text::lower(#[trigger] others[i]),
                "location:"@,
            ),
        crate::text::lower(name) == "location"@,
        forall|i: int| 0 <= i < pad.len() ==> crate::text::is_space(#[trigger] pad[i]),
        forall|i: int| 0 <= i < end.len() ==> crate::text::is_space(#[trigger] end[i]),
        value.len() > 0,
        !crate::text::is_space(value[0]),
        !crate::text::is_space(value.last()),
    ensures
        location(others + seq![name + seq![':'] + (pad + value + end)] + rest) == Some(value),
    decreases others.len(),
{
    reveal_strlit("location:");
    reveal_strlit("location");
    let line = name + seq![':'] + (pad + value + end);
    let all = others + seq![line] + rest;
    if others.len() > 0 {
        let tail = others.skip(1);
        assert(all[0] == others[0]);
        assert(all.skip(1) =~= tail + seq![line] + rest);
        assert forall|i: int| 0 <= i < tail.len() implies !crate::text::starts_with(
            crate::text::lower(#[trigger] tail[i]),
            "location:"@,
        ) by {
            assert(tail[i] == others[i + 1]);
        }
        lemma_location_found(tail, name, pad, value, end, rest);
    } else {
        assert(all[0] == line);
        let low = crate::text::lower(line);
        assert(crate::text::lower(name).len() == name.len());
        assert(low.subrange(0, 9) =~= "location:"@) by {
            assert forall|i: int| 0 <= i < 9 implies #[trigger] low.subrange(0, 9)[i]
                == "location:"@[i] by {
                if i < 8 {
                    assert(low[i] == crate::text::lower(name)[i]);
                    assert("location:"@[i] == "location"@[i]);
                } else {
                    assert(line[8] == ':');
                }
            }
        }
        assert forall|i: int| 0 <= i < name.len() implies #[trigger] name[i] != ':' by {
            assert(crate::text::lower(name)[i] == crate::text::lower_char(name[i]));
            assert("location"@[i] != ':');
        }
        lemma_index_of_first(name, ':', pad + value + end);
        assert(line.skip(name.len() as int + 1) =~= pad + value + end);
        crate::text::lemma_trim_middle(pad, value, end);
    }
}

/// The gateway is what follows `gateway:` on the first line that begins with
/// it, but for white space: an address that is given there is found.
pub proof fn lemma_route_output_gateway(
    others: Seq<Seq<char>>,
    indent: Seq<char>,
    pad: Seq<char>,
    ip: Ipv4Addr,
    end: Seq<char>,
    rest: Seq<Seq<char>>,
)
    requires
        forall|i: int|
            0 <= i < others.len() ==> !crate::text::starts_with(
                crate::text::trim(#[trigger] others[i]),
                "gateway:"@,
            ),
        forall|i: int| 0 <= i < indent.len() ==> crate::text::is_space(#[trigger] indent[i]),
        forall|i: int| 0 <= i < pad.len() ==> crate::text::is_space(#[trigger] pad[i]),
        forall|i: int| 0 <= i < end.len() ==> crate::text::is_space(#[trigger] end[i]),
    ensures
        gateway_field(
            others + seq![indent + ("gateway:"@ + pad + v4_text(ip)) + end] + rest,
        ) == Some(v4_text(ip)),
        crate::net::parse_v4(v4_text(ip)) == Some(ip),
    decreases others.len(),
{
    reveal_strlit("gateway:");
    crate::net::lemma_v4_round_trip(ip);
    crate::net::lemma_v4_text_chars(ip);
    let value = v4_text(ip);
    let middle = "gateway:"@ + pad + value;
    let line = indent + middle + end;
    let all = others + seq![line] + rest;
    if others.len() > 0 {
        let tail = others.skip(1);
        assert(all[0] == others[0]);
        assert(all.skip(1) =~= tail + seq![line] + rest);
        assert forall|i: int| 0 <= i < tail.len() implies !crate::text::starts_with(
            crate::text::trim(#[trigger] tail[i]),
            "gateway:"@,
        ) by {
            assert(tail[i] == others[i + 1]);
        }
        lemma_route_output_gateway(tail, indent, pad, ip, end, rest);
    } else {
        assert(all[0] == line);
        assert(middle[0] == 'g');
        assert(middle.last() == value.last());
        crate::text::lemma_trim_middle(indent, middle, end);
        assert(middle.subrange(0, 8) =~= "gateway:"@);
        let none = Seq::<char>::empty();
        assert(middle.skip(8) =~= pad + value + none);
        crate::text::lemma_trim_middle(pad, value, none);
    }
}

/// The body of a reply is all that follows the first empty line.
pub proof fn lemma_body_after_headers(headers: Seq<char>, body: Seq<char>)
    requires
        crate::text::ends_before(headers, "\r\n\r\n"@),
    ensures
        body_of(headers + "\r\n\r\n"@ + body) == body,
{
    reveal_strlit("\r\n\r\n");
    let end = "\r\n\r\n"@;
    let full = headers + end + body;
    let none = Seq::<char>::empty();
    assert(full =~= none + headers + end + body);
    crate::text::lemma_find_after(none, headers, end, body);
    assert(full.skip(headers.len() as int + 4) =~= body);
}

/// A mapping is refused by a reply that names a fault or an error code, or
/// both.
pub proof fn lemma_fault_signs(before: Seq<char>, after: Seq<char>, reply: Seq<char>)
    ensures
        soap_fault(before + "<s:Fault>"@ + after),
        soap_fault(before + "errorCode"@ + after),
        soap_fault(reply) && !crate::text::contains_text(reply, "errorCode"@)
            ==> crate::text::contains_text(reply, "<s:Fault>"@),
{
    reveal_strlit("<s:Fault>");
    reveal_strlit("errorCode");
    let n = before.len() as int;
    let a = before + "<s:Fault>"@ + after;
    let b = before + "errorCode"@ + after;
    assert(a.subrange(n, n + 9) =~= "<s:Fault>"@);
    assert(crate::text::matches_at(a, n, "<s:Fault>"@));
    assert(b.subrange(n, n + 9) =~= "errorCode"@);
    assert(crate::text::matches_at(b, n, "errorCode"@));
}

/// The connection services are asked for in order: the first version of the
/// IP connection before the second, and both before the PPP connection.
pub proof fn lemma_service_order(xml: Seq<char>, base_url: Seq<char>)
    ensures
        control_path(xml, "WANIPConnection:1"@) matches Some(p) ==> control_url(xml, base_url)
            == Some(full_url(p, base_url)),
        control_path(xml, "WANIPConnection:1"@) is None ==> (control_path(
            xml,
            "WANIPConnection:2"@,
        ) matches Some(p) ==> control_url(xml, base_url) == Some(full_url(p, base_url))),
        control_url(xml, base_url) is None <==> control_path(xml, "WANIPConnection:1"@) is None
            && control_path(xml, "WANIPConnection:2"@) is None && control_path(
            xml,
            "WANPPPConnection:1"@,
        ) is None,
{
}

// ---------------------------------------------------------------------------
// Trying the protocols
// ---------------------------------------------------------------------------

/// An attempt to get a mapping, by one protocol after the other.
pub struct Acquisition {
    pub failures: Vec<(PortMapProtocol, String)>,
}

pub open spec fn protocol_order() -> Seq<PortMapProtocol> {
    seq![PortMapProtocol::NatPmp, PortMapProtocol::Pcp, PortMapProtocol::UPnP]
}

impl Acquisition {
    /// The protocols that failed so far are the first ones, in order.
    pub open spec fn wf(&self) -> bool {
        &&& self.failures@.len() <= 3
        &&& forall|i: int|
            0 <= i < self.failures@.len() ==> (#[trigger] self.failures@[i]).0
                == protocol_order()[i]
    }

    pub fn new() -> (r: Self)
        ensures
            r.wf(),
            r.failures@.len() == 0,
    {
        Acquisition { failures: Vec::new() }
    }

    /// The protocol to try next: NAT-PMP, then PCP, then UPnP.
    pub fn next(&self) -> (r: Option<PortMapProtocol>)
        requires
            self.wf(),
        ensures
            r == if self.failures@.len() < 3 {
                Some(protocol_order()[self.failures@.len() as int])
            } else {
                None
            },
    {
        let n: usize = self.failures.len();
        if n == 0 {
            Some(PortMapProtocol::NatPmp)
        } else if n == 1 {
            Some(PortMapProtocol::Pcp)
        } else if n == 2 {
            Some(PortMapProtocol::UPnP)
        } else {
            None
        }
    }

    /// Records the failure of the protocol that was tried.
    pub fn record(&mut self, e: &PortMapError)
        requires
            old(self).wf(),
            old(self).failures@.len() < 3,
        ensures
            final(self).wf(),
            failures_view(final(self).failures@) == failures_view(old(self).failures@).push(
                (
                    protocol_order()[old(self).failures@.len() as int],
                    portmap_error_text(e@),
                ),
            ),
    {
        let ghost before = self.failures@;
        if let Some(p) = self.next() {
            self.failures.push((p, e.to_string()));
            proof {
                assert(failures_view(self.failures@) =~= failures_view(before).push(
                    (p, portmap_error_text(e@)),
                ));
                assert forall|i: int| 0 <= i < self.failures@.len() implies (
                #[trigger] self.failures@[i]).0 == protocol_order()[i] by {
                    if i < before.len() {
                        assert(self.failures@[i] == before[i]);
                    }
                }
            }
        }
    }

    /// The error when every protocol has failed.
    pub fn into_error(self) -> (r: PortMapError)
        ensures
            r@ == PortMapErrorView::AllFailed(failures_view(self.failures@)),
    {
        PortMapError::AllFailed(self.failures)
    }
}

/// The message that gives a PCP mapping back: the request for no time.
pub fn pcp_release_with(mapping: &PortMapping, local_ip: Ipv4Addr, nonce: &[u8]) -> (r: Vec<u8>)
    requires
        nonce@.len() == 12,
    ensures
        r@ == pcp_message(mapping.internal_port, local_ip, nonce@, 0),
        r@.len() == 60,
{
    pcp_map_request(mapping.internal_port, local_ip, nonce, 0)
}

pub fn delete_mapping_action() -> (r: &'static str)
    ensures
        r@ == "urn:schemas-upnp-org:service:WANIPConnection:1#DeletePortMapping"@,
{
    "urn:schemas-upnp-org:service:WANIPConnection:1#DeletePortMapping"
}

pub open spec fn delete_mapping_text(external_port: u16) -> Seq<char> {
    "<u:DeletePortMapping xmlns:u=\"urn:schemas-upnp-org:service:WANIPConnection:1\"><NewRemoteHost></NewRemoteHost><NewExternalPort>"@
        + crate::text::decimal(external_port as nat)
        + "</NewExternalPort><NewProtocol>UDP</NewProtocol></u:DeletePortMapping>"@
}

/// The request to delete a mapping.
pub fn delete_mapping_body(external_port: u16) -> (r: String)
    ensures
        r@ == delete_mapping_text(external_port),
{
    let mut m = String::from_str(
        "<u:DeletePortMapping xmlns:u=\"urn:schemas-upnp-org:service:WANIPConnection:1\"><NewRemoteHost></NewRemoteHost><NewExternalPort>",
    );
    push_decimal(&mut m, external_port as u64);
    m.append("</NewExternalPort><NewProtocol>UDP</NewProtocol></u:DeletePortMapping>");
    m
}

/// How a mapping is given back.
pub enum ReleaseRequest {
    /// By a datagram to the gateway.
    Datagram(Vec<u8>),
    /// By an action of the gateway's service.
    Soap { action: &'static str, body: String },
}

/// What gives a mapping back: for NAT-PMP the request for no port and no
/// time, for PCP the request for no time under a nonce of its own, for UPnP
/// the action that deletes the external port.
pub fn release_request(mapping: &PortMapping, local_ip: Ipv4Addr) -> (r: ReleaseRequest)
    ensures
        match mapping.protocol {
            PortMapProtocol::NatPmp => r matches ReleaseRequest::Datagram(m) && m@
                == natpmp_map_message(mapping.internal_port, 0, 0),
            PortMapProtocol::Pcp => r matches ReleaseRequest::Datagram(m) && exists|
                nonce: Seq<u8>,
            |
                nonce.len() == 12 && m@ == #[trigger] pcp_message(
                    mapping.internal_port,
                    local_ip,
                    nonce,
                    0,
                ),
            PortMapProtocol::UPnP => r matches ReleaseRequest::Soap { action, body } && action@
                == "urn:schemas-upnp-org:service:WANIPConnection:1#DeletePortMapping"@ && body@
                == delete_mapping_text(mapping.external_addr.spec_port()),
        },
{
    match mapping.protocol {
        PortMapProtocol::NatPmp => ReleaseRequest::Datagram(
            natpmp_map_request(mapping.internal_port, 0, 0),
        ),
        PortMapProtocol::Pcp => {
            let nonce = random_bytes(12);
            ReleaseRequest::Datagram(pcp_release_with(mapping, local_ip, nonce.as_slice()))
        },
        PortMapProtocol::UPnP => ReleaseRequest::Soap {
            action: delete_mapping_action(),
            body: delete_mapping_body(mapping.external_addr.port()),
        },
    }
}

pub open spec fn local_candidate(iface: (bool, IpAddr)) -> bool {
    !iface.0 && (iface.1 matches IpAddr::V4(ip) && ip.private())
}

/// Picks the local address among the interfaces, each with whether it is the
/// loopback: the first private IPv4 address.
pub fn detect_local_ipv4(ifaces: &[(bool, IpAddr)]) -> (r: Option<Ipv4Addr>)
    ensures
        match r {
            Some(ip) => exists|i: int|
                {
                    &&& 0 <= i < ifaces@.len()
                    &&& local_candidate(#[trigger] ifaces@[i])
                    &&& ifaces@[i].1 == IpAddr::V4(ip)
                    &&& forall|j: int| 0 <= j < i ==> !local_candidate(#[trigger] ifaces@[j])
                },
            None => forall|j: int|
                0 <= j < ifaces@.len() ==> !local_candidate(#[trigger] ifaces@[j]),
        },
{
    let mut i: usize = 0;
    while i < ifaces.len()
        invariant
            i <= ifaces@.len(),
            forall|j: int| 0 <= j < i ==> !local_candidate(#[trigger] ifaces@[j]),
        decreases ifaces.len() - i,
    {
        if !ifaces[i].0 {
            if let IpAddr::V4(ip) = ifaces[i].1 {
                if ip.is_private() {
                    assert(local_candidate(ifaces@[i as int]));
                    return Some(ip);
                }
            }
        }
        i += 1;
    }
    None
}

} // verus!
