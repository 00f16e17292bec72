//! Reflexive address discovery: STUN Binding messages (RFC 5389), and how a
//! NAT allocates external ports.
use vstd::prelude::*;
use vstd::string::StringExecFns;

use crate::bytes::{be16, be16_bytes, be32, be32_bytes};
use crate::bytes::{copy_bytes, read_be16, read_be32, same_bytes};
use crate::net::{IpAddr, Ipv4Addr, Ipv6Addr, SocketAddr};
use crate::random::random_bytes;
use crate::text::{push_decimal, push_decimal_int, push_hex_padded};
use crate::time::Duration;

verus! {

broadcast use vstd::string::group_string_axioms;

/// STUN magic cookie (RFC 5389 §6).
pub const MAGIC_COOKIE: u32 = 0x2112_A442;

pub const BINDING_REQUEST: u16 = 0x0001;

pub const BINDING_RESPONSE: u16 = 0x0101;

pub const BINDING_ERROR: u16 = 0x0111;

pub const ATTR_MAPPED_ADDRESS: u16 = 0x0001;

pub const ATTR_XOR_MAPPED_ADDRESS: u16 = 0x0020;

/// A STUN header is always 20 bytes.
pub const HEADER_LEN: usize = 20;

/// The largest response that is accepted.
pub const MAX_RESPONSE: usize = 576;

/// Well-known public STUN servers, as `host:port`.
pub const DEFAULT_STUN_SERVERS: [&'static str; 3] = [
    "stun.l.google.com:19302",
    "stun1.l.google.com:19302",
    "stun.cloudflare.com:3478",
];

#[derive(Debug, Clone)]
pub enum StunError {
    /// Network I/O error.
    Io(String),
    /// Timed out waiting for a response.
    Timeout,
    /// Response packet too short or malformed.
    Malformed(String),
    /// The response does not belong to the request.
    TxnMismatch,
    /// The response was a STUN error response.
    ErrorResponse(u16),
    /// No XOR-MAPPED-ADDRESS or MAPPED-ADDRESS in the response.
    NoMappedAddress,
    /// DNS resolution failed.
    DnsError(String),
}

/// [`StunError`] with its texts as character sequences.
pub enum StunErrorView {
    Io(Seq<char>),
    Timeout,
    Malformed(Seq<char>),
    TxnMismatch,
    ErrorResponse(u16),
    NoMappedAddress,
    DnsError(Seq<char>),
}

impl View for StunError {
    type V = StunErrorView;

    open spec fn view(&self) -> StunErrorView {
        match self {
            StunError::Io(e) => StunErrorView::Io(e@),
            StunError::Timeout => StunErrorView::Timeout,
            StunError::Malformed(e) => StunErrorView::Malformed(e@),
            StunError::TxnMismatch => StunErrorView::TxnMismatch,
            StunError::ErrorResponse(code) => StunErrorView::ErrorResponse(*code),
            StunError::NoMappedAddress => StunErrorView::NoMappedAddress,
            StunError::DnsError(e) => StunErrorView::DnsError(e@),
        }
    }
}

/// An outcome with its error by view.
pub open spec fn outcome(r: Result<SocketAddr, StunError>) -> Result<SocketAddr, StunErrorView> {
    match r {
        Ok(a) => Ok(a),
        Err(e) => Err(e@),
    }
}

pub open spec fn stun_error_text(e: StunErrorView) -> Seq<char> {
    match e {
        StunErrorView::Io(e) => "STUN I/O: "@ + e,
        StunErrorView::Timeout => "STUN timeout"@,
        StunErrorView::Malformed(e) => "STUN malformed: "@ + e,
        StunErrorView::TxnMismatch => "STUN transaction ID mismatch"@,
        StunErrorView::ErrorResponse(code) => "STUN error response: "@ + crate::text::decimal(
            code as nat,
        ),
        StunErrorView::NoMappedAddress => "no MAPPED-ADDRESS in STUN response"@,
        StunErrorView::DnsError(e) => "STUN DNS: "@ + e,
    }
}

impl StunError {
    pub fn to_string(&self) -> (r: String)
        ensures
            r@ == stun_error_text(self@),
    {
        let mut out = String::new();
        match self {
            StunError::Io(e) => {
                out.append("STUN I/O: ");
                out.append(e.as_str());
            },
            StunError::Timeout => out.append("STUN timeout"),
            StunError::Malformed(e) => {
                out.append("STUN malformed: ");
                out.append(e.as_str());
            },
            StunError::TxnMismatch => out.append("STUN transaction ID mismatch"),
            StunError::ErrorResponse(code) => {
                out.append("STUN error response: ");
                push_decimal(&mut out, *code as u64);
            },
            StunError::NoMappedAddress => out.append("no MAPPED-ADDRESS in STUN response"),
            StunError::DnsError(e) => {
                out.append("STUN DNS: ");
                out.append(e.as_str());
            },
        }
        assert(out@ =~= stun_error_text(self@));
        out
    }
}

/// Which servers to ask, as `host:port`, and how long to wait for each.
#[derive(Debug, Clone)]
pub struct StunConfig {
    pub servers: Vec<String>,
    pub timeout: Duration,
}

/// [`DEFAULT_STUN_SERVERS`] by view.
pub open spec fn default_servers() -> Seq<Seq<char>> {
    seq!["stun.l.google.com:19302"@, "stun1.l.google.com:19302"@, "stun.cloudflare.com:3478"@]
}

pub open spec fn texts(v: Seq<String>) -> Seq<Seq<char>> {
    v.map_values(|s: String| s@)
}

/// [`DEFAULT_STUN_SERVERS`], owned.
fn default_stun_servers() -> (r: Vec<String>)
    ensures
        texts(r@) == default_servers(),
{
    let mut r: Vec<String> = Vec::new();
    r.push(String::from_str(DEFAULT_STUN_SERVERS[0]));
    r.push(String::from_str(DEFAULT_STUN_SERVERS[1]));
    r.push(String::from_str(DEFAULT_STUN_SERVERS[2]));
    assert(texts(r@) =~= default_servers());
    r
}

impl Default for StunConfig {
    fn default() -> (r: Self)
        ensures
            texts(r.servers@) == default_servers(),
            r.timeout.nanos == 3_000_000_000,
    {
        StunConfig { servers: default_stun_servers(), timeout: Duration::from_secs(3) }
    }
}

// ---------------------------------------------------------------------------
// Messages
// ---------------------------------------------------------------------------

/// A fresh 12-byte transaction ID.
pub fn gen_txn_id() -> (r: [u8; 12]) {
    let v = random_bytes(12);
    txn_id_from(v.as_slice())
}

/// A transaction ID made of twelve given bytes.
pub fn txn_id_from(v: &[u8]) -> (r: [u8; 12])
    requires
        v@.len() == 12,
    ensures
        r@ == v@,
{
    let r: [u8; 12] = [
        v[0],
        v[1],
        v[2],
        v[3],
        v[4],
        v[5],
        v[6],
        v[7],
        v[8],
        v[9],
        v[10],
        v[11],
    ];
    assert(r@ =~= v@);
    r
}

/// A header: type, length of what follows, cookie, transaction ID.
pub open spec fn header(msg_type: u16, msg_len: u16, txn_id: Seq<u8>) -> Seq<u8> {
    be16_bytes(msg_type) + be16_bytes(msg_len) + be32_bytes(MAGIC_COOKIE) + txn_id
}

/// Encodes a Binding Request: a header with nothing after it.
pub fn encode_binding_request(txn_id: &[u8; 12]) -> (r: [u8; 20])
    ensures
        r@ == header(BINDING_REQUEST, 0, txn_id@),
{
    let r: [u8; 20] = [
        0x00,
        0x01,
        0x00,
        0x00,
        0x21,
        0x12,
        0xA4,
        0x42,
        txn_id[0],
        txn_id[1],
        txn_id[2],
        txn_id[3],
        txn_id[4],
        txn_id[5],
        txn_id[6],
        txn_id[7],
        txn_id[8],
        txn_id[9],
        txn_id[10],
        txn_id[11],
    ];
    assert(r@ =~= header(BINDING_REQUEST, 0, txn_id@));
    r
}

/// The attributes in `b` from `pos` on, each a type and a value, in order. An
/// attribute is padded to four bytes; one that does not fit ends the list.
pub open spec fn attributes(b: Seq<u8>, pos: int) -> Seq<(u16, Seq<u8>)>
    decreases b.len() + 8 - pos,
{
    if pos < 0 || pos + 4 > b.len() {
        Seq::empty()
    } else {
        let len = be16(b[pos + 2], b[pos + 3]) as int;
        let end = pos + 4 + len;
        if end > b.len() {
            Seq::empty()
        } else {
            seq![(be16(b[pos], b[pos + 1]), b.subrange(pos + 4, end))] + attributes(
                b,
                end + (4 - len % 4) % 4,
            )
        }
    }
}

/// The value of the last attribute of type `t`.
pub open spec fn last_value(attrs: Seq<(u16, Seq<u8>)>, t: u16) -> Option<Seq<u8>>
    decreases attrs.len(),
{
    if attrs.len() == 0 {
        None
    } else if attrs.last().0 == t {
        Some(attrs.last().1)
    } else {
        last_value(attrs.drop_last(), t)
    }
}

pub open spec fn v6_of_octets(o: Seq<u8>) -> Ipv6Addr {
    Ipv6Addr {
        g0: be16(o[0], o[1]),
        g1: be16(o[2], o[3]),
        g2: be16(o[4], o[5]),
        g3: be16(o[6], o[7]),
        g4: be16(o[8], o[9]),
        g5: be16(o[10], o[11]),
        g6: be16(o[12], o[13]),
        g7: be16(o[14], o[15]),
    }
}

/// The octets of an address value, each combined with the key byte at its
/// place.
pub open spec fn xor_octets(value: Seq<u8>, key: Seq<u8>) -> Seq<u8> {
    Seq::new(key.len(), |i: int| value[4 + i] ^ key[i])
}

/// The key for addresses: the cookie, then the transaction ID.
pub open spec fn xor_key(txn_id: Seq<u8>) -> Seq<u8> {
    seq![0x21u8, 0x12, 0xA4, 0x42] + txn_id
}

/// An address value: a reserved byte, the family, the port, the octets. Port
/// and octets are combined with `port_key` and `key`; `name` is what the
/// messages call the attribute.
pub open spec fn address_value(
    value: Seq<u8>,
    port_key: u16,
    key: Seq<u8>,
    name: Seq<char>,
) -> Result<SocketAddr, StunErrorView> {
    if value.len() < 4 {
        Err(StunErrorView::Malformed(name + " too short"@))
    } else {
        let port = be16(value[2], value[3]) ^ port_key;
        let o = xor_octets(value, key);
        if value[1] == 0x01 {
            if value.len() < 8 {
                Err(StunErrorView::Malformed(name + " IPv4 too short"@))
            } else {
                Ok(SocketAddr::V4 { ip: Ipv4Addr { a: o[0], b: o[1], c: o[2], d: o[3] }, port })
            }
        } else if value[1] == 0x02 {
            if value.len() < 20 {
                Err(StunErrorView::Malformed(name + " IPv6 too short"@))
            } else {
                Ok(SocketAddr::V6 { ip: v6_of_octets(o), port, scope_id: 0 })
            }
        } else {
            Err(
                StunErrorView::Malformed(
                    "unknown address family: 0x"@ + crate::text::hex_padded(value[1] as nat, 2),
                ),
            )
        }
    }
}

/// The address in a MAPPED-ADDRESS value (RFC 5389 §15.1).
pub open spec fn mapped_address(value: Seq<u8>) -> Result<SocketAddr, StunErrorView> {
    address_value(value, 0, crate::bytes::zeros(16), "MAPPED-ADDRESS"@)
}

/// The address in an XOR-MAPPED-ADDRESS value (RFC 5389 §15.2).
pub open spec fn xor_mapped_address(value: Seq<u8>, txn_id: Seq<u8>) -> Result<
    SocketAddr,
    StunErrorView,
> {
    address_value(value, 0x2112, xor_key(txn_id), "XOR-MAPPED-ADDRESS"@)
}

/// The address that a sequence of attributes gives: the last
/// XOR-MAPPED-ADDRESS if it is well formed, else the last MAPPED-ADDRESS if
/// that one is.
pub open spec fn address_of_attributes(attrs: Seq<(u16, Seq<u8>)>, txn_id: Seq<u8>) -> Option<
    SocketAddr,
> {
    match xor_of(attrs, txn_id) {
        Some(a) => Some(a),
        None => mapped_of(attrs),
    }
}

pub open spec fn xor_of(attrs: Seq<(u16, Seq<u8>)>, txn_id: Seq<u8>) -> Option<SocketAddr> {
    match last_value(attrs, ATTR_XOR_MAPPED_ADDRESS) {
        Some(v) => match xor_mapped_address(v, txn_id) {
            Ok(a) => Some(a),
            Err(_) => None,
        },
        None => None,
    }
}

pub open spec fn mapped_of(attrs: Seq<(u16, Seq<u8>)>) -> Option<SocketAddr> {
    match last_value(attrs, ATTR_MAPPED_ADDRESS) {
        Some(v) => match mapped_address(v) {
            Ok(a) => Some(a),
            Err(_) => None,
        },
        None => None,
    }
}

/// What a response tells, for the transaction that it should belong to. The
/// first check that fails gives the error.
pub open spec fn binding_response(buf: Seq<u8>, txn_id: Seq<u8>) -> Result<
    SocketAddr,
    StunErrorView,
> {
    let msg_type = be16(buf[0], buf[1]);
    let msg_len = be16(buf[2], buf[3]);
    let cookie = be32(buf[4], buf[5], buf[6], buf[7]);
    if buf.len() < 20 {
        Err(
            StunErrorView::Malformed(
                "response too short: "@ + crate::text::decimal(buf.len()) + " bytes"@,
            ),
        )
    } else if cookie != MAGIC_COOKIE {
        Err(
            StunErrorView::Malformed(
                "bad magic cookie: 0x"@ + crate::text::hex_padded(cookie as nat, 8),
            ),
        )
    } else if msg_type == BINDING_ERROR {
        Err(StunErrorView::ErrorResponse(0))
    } else if msg_type != BINDING_RESPONSE {
        Err(
            StunErrorView::Malformed(
                "unexpected message type: 0x"@ + crate::text::hex_padded(msg_type as nat, 4),
            ),
        )
    } else if buf.subrange(8, 20) != txn_id {
        Err(StunErrorView::TxnMismatch)
    } else if buf.len() < 20 + msg_len {
        Err(
            StunErrorView::Malformed(
                "message length "@ + crate::text::decimal(msg_len as nat) + " exceeds buffer ("@
                    + crate::text::decimal((buf.len() - 20) as nat) + " bytes after header)"@,
            ),
        )
    } else {
        match address_of_attributes(attributes(buf.subrange(20, 20 + msg_len), 0), txn_id) {
            Some(a) => Ok(a),
            None => Err(StunErrorView::NoMappedAddress),
        }
    }
}

/// Parses a Binding Response and gives the mapped address in it.
pub fn parse_binding_response(buf: &[u8], expected_txn_id: &[u8; 12]) -> (r: Result<
    SocketAddr,
    StunError,
>)
    ensures
        outcome(r) == binding_response(buf@, expected_txn_id@),
{
    if buf.len() < HEADER_LEN {
        let mut m = String::new();
        m.append("response too short: ");
        push_decimal(&mut m, buf.len() as u64);
        m.append(" bytes");
        assert(m@ =~= "response too short: "@ + crate::text::decimal(buf@.len()) + " bytes"@);
        return Err(StunError::Malformed(m));
    }
    let msg_type: u16 = read_be16(buf, 0);
    let msg_len: usize = read_be16(buf, 2) as usize;
    let cookie: u32 = read_be32(buf, 4);
    if cookie != MAGIC_COOKIE {
        let mut m = String::new();
        m.append("bad magic cookie: 0x");
        push_hex_padded(&mut m, cookie as u64, 8);
        assert(m@ =~= "bad magic cookie: 0x"@ + crate::text::hex_padded(cookie as nat, 8));
        return Err(StunError::Malformed(m));
    }
    if msg_type == BINDING_ERROR {
        return Err(StunError::ErrorResponse(0));
    }
    if msg_type != BINDING_RESPONSE {
        let mut m = String::new();
        m.append("unexpected message type: 0x");
        push_hex_padded(&mut m, msg_type as u64, 4);
        assert(m@ =~= "unexpected message type: 0x"@ + crate::text::hex_padded(
            msg_type as nat,
            4,
        ));
        return Err(StunError::Malformed(m));
    }
    let txn = copy_bytes(buf, 8, 20);
    if !same_bytes(txn.as_slice(), expected_txn_id.as_slice()) {
        return Err(StunError::TxnMismatch);
    }
    if buf.len() - HEADER_LEN < msg_len {
        let mut m = String::new();
        m.append("message length ");
        push_decimal(&mut m, msg_len as u64);
        m.append(" exceeds buffer (");
        push_decimal(&mut m, (buf.len() - HEADER_LEN) as u64);
        m.append(" bytes after header)");
        assert(m@ =~= "message length "@ + crate::text::decimal(msg_len as nat)
            + " exceeds buffer ("@ + crate::text::decimal((buf@.len() - 20) as nat)
            + " bytes after header)"@);
        return Err(StunError::Malformed(m));
    }
    let attrs = copy_bytes(buf, HEADER_LEN, HEADER_LEN + msg_len);
    let ghost all = attributes(attrs@, 0);
    let ghost txn_id = expected_txn_id@;
    let mut mapped: Option<SocketAddr> = None;
    let mut xor_mapped: Option<SocketAddr> = None;
    let mut pos: usize = 0;
    let ghost mut seen: Seq<(u16, Seq<u8>)> = Seq::empty();
    proof {
        assert(seen + attributes(attrs@, 0) =~= all);
    }
    while pos <= attrs.len() && attrs.len() - pos >= 4
        invariant_except_break
            attrs@.len() <= 0xffff,
            pos <= 0x2_0000,
            txn_id == expected_txn_id@,
            all == attributes(attrs@, 0),
            seen + attributes(attrs@, pos as int) == all,
            mapped == mapped_of(seen),
            xor_mapped == xor_of(seen, txn_id),
        ensures
            mapped == mapped_of(all),
            xor_mapped == xor_of(all, txn_id),
        decreases attrs.len() + 8 - pos,
    {
        let attr_type: u16 = read_be16(attrs.as_slice(), pos);
        let attr_len: usize = read_be16(attrs.as_slice(), pos + 2) as usize;
        let value_start: usize = pos + 4;
        let value_end: usize = value_start + attr_len;
        if value_end > attrs.len() {
            assert(seen =~= all);
            break;
        }
        let value = copy_bytes(attrs.as_slice(), value_start, value_end);
        let ghost before = seen;
        proof {
            seen = seen.push((attr_type, value@));
            assert(seen.drop_last() =~= before);
            assert(seen.last() == (attr_type, value@));
        }
        if attr_type == ATTR_XOR_MAPPED_ADDRESS {
            xor_mapped = match parse_xor_mapped_address(value.as_slice(), expected_txn_id) {
                Ok(a) => Some(a),
                Err(_) => None,
            };
        } else if attr_type == ATTR_MAPPED_ADDRESS {
            mapped = match parse_mapped_address(value.as_slice()) {
                Ok(a) => Some(a),
                Err(_) => None,
            };
        }
        let pad: usize = (4 - (attr_len % 4)) % 4;
        proof {
            assert(before + attributes(attrs@, pos as int) =~= seen + attributes(
                attrs@,
                value_end + pad,
            ));
        }
        pos = value_end + pad;
        if pos > attrs.len() || attrs.len() - pos < 4 {
            assert(attributes(attrs@, pos as int) =~= Seq::empty());
            assert(seen =~= all);
        }
    }
    match xor_mapped {
        Some(a) => Ok(a),
        None => match mapped {
            Some(a) => Ok(a),
            None => Err(StunError::NoMappedAddress),
        },
    }
}

/// Parses a MAPPED-ADDRESS attribute value.
pub fn parse_mapped_address(value: &[u8]) -> (r: Result<SocketAddr, StunError>)
    ensures
        outcome(r) == mapped_address(value@),
{
    let key: Vec<u8> = vec![0u8; 16];
    assert(key@ =~= crate::bytes::zeros(16));
    parse_address(value, 0, &key, "MAPPED-ADDRESS")
}

/// Parses an XOR-MAPPED-ADDRESS attribute value.
pub fn parse_xor_mapped_address(value: &[u8], txn_id: &[u8; 12]) -> (r: Result<
    SocketAddr,
    StunError,
>)
    ensures
        outcome(r) == xor_mapped_address(value@, txn_id@),
{
    let mut key: Vec<u8> = vec![0x21, 0x12, 0xA4, 0x42];
    crate::bytes::push_all(&mut key, txn_id.as_slice());
    assert(key@ =~= xor_key(txn_id@));
    parse_address(value, 0x2112, &key, "XOR-MAPPED-ADDRESS")
}

fn malformed(name: &str, what: &str) -> (r: StunError)
    ensures
        r@ == StunErrorView::Malformed(name@ + what@),
{
    let mut m = String::from_str(name);
    m.append(what);
    StunError::Malformed(m)
}

fn parse_address(value: &[u8], port_key: u16, key: &Vec<u8>, name: &str) -> (r: Result<
    SocketAddr,
    StunError,
>)
    requires
        key@.len() == 16,
    ensures
        outcome(r) == address_value(value@, port_key, key@, name@),
{
    if value.len() < 4 {
        return Err(malformed(name, " too short"));
    }
    let family: u8 = value[1];
    let port: u16 = read_be16(value, 2) ^ port_key;
    if family == 0x01 {
        if value.len() < 8 {
            return Err(malformed(name, " IPv4 too short"));
        }
        let ip = Ipv4Addr {
            a: value[4] ^ key[0],
            b: value[5] ^ key[1],
            c: value[6] ^ key[2],
            d: value[7] ^ key[3],
        };
        Ok(SocketAddr::V4 { ip, port })
    } else if family == 0x02 {
        if value.len() < 20 {
            return Err(malformed(name, " IPv6 too short"));
        }
        let mut o: Vec<u8> = Vec::new();
        let mut i: usize = 0;
        while i < 16
            invariant
                i <= 16,
                value@.len() >= 20,
                key@.len() == 16,
                o@ == xor_octets(value@, key@).take(i as int),
            decreases 16 - i,
        {
            o.push(value[4 + i] ^ key[i]);
            i += 1;
            assert(o@ =~= xor_octets(value@, key@).take(i as int));
        }
        assert(o@ =~= xor_octets(value@, key@));
        let ip = Ipv6Addr {
            g0: read_be16(o.as_slice(), 0),
            g1: read_be16(o.as_slice(), 2),
            g2: read_be16(o.as_slice(), 4),
            g3: read_be16(o.as_slice(), 6),
            g4: read_be16(o.as_slice(), 8),
            g5: read_be16(o.as_slice(), 10),
            g6: read_be16(o.as_slice(), 12),
            g7: read_be16(o.as_slice(), 14),
        };
        Ok(SocketAddr::V6 { ip, port, scope_id: 0 })
    } else {
        let mut m = String::new();
        m.append("unknown address family: 0x");
        push_hex_padded(&mut m, family as u64, 2);
        assert(m@ =~= "unknown address family: 0x"@ + crate::text::hex_padded(family as nat, 2));
        Err(StunError::Malformed(m))
    }
}

// ---------------------------------------------------------------------------
// Laws of the message format
// ---------------------------------------------------------------------------

/// The octets of an IPv6 address.
pub open spec fn v6_octets(ip: Ipv6Addr) -> Seq<u8> {
    be16_bytes(ip.g0) + be16_bytes(ip.g1) + be16_bytes(ip.g2) + be16_bytes(ip.g3) + be16_bytes(
        ip.g4,
    ) + be16_bytes(ip.g5) + be16_bytes(ip.g6) + be16_bytes(ip.g7)
}

pub open spec fn octets_of(addr: SocketAddr) -> Seq<u8> {
    match addr {
        SocketAddr::V4 { ip, .. } => seq![ip.a, ip.b, ip.c, ip.d],
        SocketAddr::V6 { ip, .. } => v6_octets(ip),
    }
}

/// An address value for `addr`, port and octets combined with the keys.
pub open spec fn encode_address(addr: SocketAddr, port_key: u16, key: Seq<u8>) -> Seq<u8> {
    let o = octets_of(addr);
    seq![
        0u8,
        if addr is V4 {
            1u8
        } else {
            2u8
        },
    ] + be16_bytes(addr.spec_port() ^ port_key) + Seq::new(o.len(), |i: int| o[i] ^ key[i])
}

/// A Binding Response with one attribute.
pub open spec fn response_with(attr_type: u16, value: Seq<u8>, txn_id: Seq<u8>) -> Seq<u8> {
    header(BINDING_RESPONSE, (4 + value.len()) as u16, txn_id) + be16_bytes(attr_type)
        + be16_bytes(value.len() as u16) + value
}

proof fn lemma_xor_twice_u8(x: u8, k: u8)
    ensures
        (x ^ k) ^ k == x,
{
    assert((x ^ k) ^ k == x) by (bit_vector);
}

proof fn lemma_xor_twice_u16(x: u16, k: u16)
    ensures
        (x ^ k) ^ k == x,
{
    assert((x ^ k) ^ k == x) by (bit_vector);
}

/// An address value reads back as the address that it was made from.
pub proof fn lemma_address_round_trip(
    addr: SocketAddr,
    port_key: u16,
    key: Seq<u8>,
    name: Seq<char>,
)
    requires
        key.len() == 16,
        addr is V6 ==> addr->scope_id == 0,
    ensures
        address_value(encode_address(addr, port_key, key), port_key, key, name) == Ok::<
            SocketAddr,
            StunErrorView,
        >(addr),
{
    let value = encode_address(addr, port_key, key);
    let o = octets_of(addr);
    let back = xor_octets(value, key);
    lemma_xor_twice_u16(addr.spec_port(), port_key);
    assert(value[2] == be16_bytes(addr.spec_port() ^ port_key)[0]);
    assert(value[3] == be16_bytes(addr.spec_port() ^ port_key)[1]);
    crate::bytes::lemma_be16(addr.spec_port() ^ port_key);
    assert forall|i: int| 0 <= i < o.len() implies back[i] == o[i] by {
        assert(value[4 + i] == o[i] ^ key[i]);
        lemma_xor_twice_u8(o[i], key[i]);
    }
    match addr {
        SocketAddr::V4 { ip, port } => {
            assert(back[0] == ip.a && back[1] == ip.b && back[2] == ip.c && back[3] == ip.d);
        },
        SocketAddr::V6 { ip, port, scope_id } => {
            assert(o.len() == 16);
            assert(back =~= o);
            assert(v6_of_octets(v6_octets(ip)) == ip);
        },
    }
}

/// The one attribute of such a response is what its attribute list holds.
proof fn lemma_response_with(attr_type: u16, value: Seq<u8>, txn_id: Seq<u8>)
    requires
        txn_id.len() == 12,
        value.len() == 8 || value.len() == 20,
    ensures
        ({
            let buf = response_with(attr_type, value, txn_id);
            &&& buf.len() == 24 + value.len()
            &&& be16(buf[0], buf[1]) == BINDING_RESPONSE
            &&& be16(buf[2], buf[3]) == 4 + value.len()
            &&& be32(buf[4], buf[5], buf[6], buf[7]) == MAGIC_COOKIE
            &&& buf.subrange(8, 20) == txn_id
            &&& attributes(buf.subrange(20, 24 + value.len() as int), 0) == seq![(attr_type, value)]
        }),
{
    let buf = response_with(attr_type, value, txn_id);
    let b = buf.subrange(20, 24 + value.len() as int);
    assert(buf.subrange(8, 20) =~= txn_id);
    crate::bytes::lemma_be16(attr_type);
    crate::bytes::lemma_be16(value.len() as u16);
    assert(b[0] == be16_bytes(attr_type)[0] && b[1] == be16_bytes(attr_type)[1]);
    assert(b[2] == be16_bytes(value.len() as u16)[0] && b[3] == be16_bytes(value.len() as u16)[1]);
    assert(b.subrange(4, 4 + value.len() as int) =~= value);
    assert(attributes(b, 4 + value.len() as int) =~= Seq::empty());
    assert(attributes(b, 0) =~= seq![(attr_type, value)]);
}

/// A response with one well-formed address attribute gives that address.
proof fn lemma_single_attribute(attr_type: u16, value: Seq<u8>, txn_id: Seq<u8>, addr: SocketAddr)
    requires
        txn_id.len() == 12,
        value.len() == 8 || value.len() == 20,
        ({
            ||| attr_type == ATTR_XOR_MAPPED_ADDRESS && xor_mapped_address(value, txn_id) == Ok::<
                SocketAddr,
                StunErrorView,
            >(addr)
            ||| attr_type == ATTR_MAPPED_ADDRESS && mapped_address(value) == Ok::<
                SocketAddr,
                StunErrorView,
            >(addr)
        }),
    ensures
        binding_response(response_with(attr_type, value, txn_id), txn_id) == Ok::<
            SocketAddr,
            StunErrorView,
        >(addr),
{
    lemma_response_with(attr_type, value, txn_id);
    let attrs = seq![(attr_type, value)];
    assert(attrs.last() == (attr_type, value));
    assert(attrs.drop_last().len() == 0);
    assert(last_value(attrs.drop_last(), ATTR_XOR_MAPPED_ADDRESS) is None);
    assert(address_of_attributes(attrs, txn_id) == Some(addr));
}

/// An address value is of one of two lengths.
proof fn lemma_encoded_len(addr: SocketAddr, port_key: u16, key: Seq<u8>)
    ensures
        ({
            let n = encode_address(addr, port_key, key).len();
            n == 8 || n == 20
        }),
{
}

/// Parsing gives back the address that a server put into an
/// XOR-MAPPED-ADDRESS.
#[verifier::spinoff_prover]
pub proof fn lemma_xor_response_round_trip(addr: SocketAddr, txn_id: Seq<u8>)
    requires
        txn_id.len() == 12,
        addr is V6 ==> addr->scope_id == 0,
    ensures
        binding_response(
            response_with(
                ATTR_XOR_MAPPED_ADDRESS,
                encode_address(addr, 0x2112, xor_key(txn_id)),
                txn_id,
            ),
            txn_id,
        ) == Ok::<SocketAddr, StunErrorView>(addr),
{
    lemma_address_round_trip(addr, 0x2112, xor_key(txn_id), "XOR-MAPPED-ADDRESS"@);
    lemma_encoded_len(addr, 0x2112, xor_key(txn_id));
    lemma_single_attribute(
        ATTR_XOR_MAPPED_ADDRESS,
        encode_address(addr, 0x2112, xor_key(txn_id)),
        txn_id,
        addr,
    );
}

/// Parsing gives back the address that a server put into a MAPPED-ADDRESS,
/// where there is no other attribute.
#[verifier::spinoff_prover]
pub proof fn lemma_mapped_response_round_trip(addr: SocketAddr, txn_id: Seq<u8>)
    requires
        txn_id.len() == 12,
        addr is V6 ==> addr->scope_id == 0,
    ensures
        binding_response(
            response_with(
                ATTR_MAPPED_ADDRESS,
                encode_address(addr, 0, crate::bytes::zeros(16)),
                txn_id,
            ),
            txn_id,
        ) == Ok::<SocketAddr, StunErrorView>(addr),
{
    let key = crate::bytes::zeros(16);
    let value = encode_address(addr, 0, key);
    assert(mapped_address(value) == Ok::<SocketAddr, StunErrorView>(addr)) by {
        lemma_address_round_trip(addr, 0, key, "MAPPED-ADDRESS"@);
    }
    lemma_encoded_len(addr, 0, key);
    lemma_single_attribute(ATTR_MAPPED_ADDRESS, value, txn_id, addr);
}

/// A length rounded up to a multiple of four.
pub open spec fn padded_len(n: nat) -> nat {
    (n + 3) / 4 * 4
}

/// An attribute as a server writes it: type, length, value, and zero bytes up
/// to a multiple of four.
pub open spec fn write_attribute(attr: (u16, Seq<u8>)) -> Seq<u8> {
    be16_bytes(attr.0) + be16_bytes(attr.1.len() as u16) + attr.1 + crate::bytes::zeros(
        (padded_len(attr.1.len()) - attr.1.len()) as nat,
    )
}

/// Attributes written one after the other.
pub open spec fn write_attributes(attrs: Seq<(u16, Seq<u8>)>) -> Seq<u8>
    decreases attrs.len(),
{
    if attrs.len() == 0 {
        Seq::empty()
    } else {
        write_attribute(attrs[0]) + write_attributes(attrs.skip(1))
    }
}

/// Each length fits into its field.
pub open spec fn can_be_written(attrs: Seq<(u16, Seq<u8>)>) -> bool {
    forall|i: int| 0 <= i < attrs.len() ==> (#[trigger] attrs[i]).1.len() <= 0xffff
}

/// The padding fills up the last group of four.
proof fn lemma_padded_len(n: nat)
    ensures
        padded_len(n) == n + (4 - n % 4) % 4,
{
}

/// One attribute is found where it was written.
#[verifier::spinoff_prover]
proof fn lemma_one_attribute(before: Seq<u8>, attr: (u16, Seq<u8>), after: Seq<u8>)
    requires
        attr.1.len() <= 0xffff,
    ensures
        ({
            let b = before + write_attribute(attr) + after;
            let pos = before.len() as int;
            let n = attr.1.len() as int;
            &&& write_attribute(attr).len() == 4 + padded_len(attr.1.len())
            &&& padded_len(attr.1.len()) >= n
            &&& b.len() >= pos + 4 + n
            &&& be16(b[pos], b[pos + 1]) == attr.0
            &&& be16(b[pos + 2], b[pos + 3]) == n
            &&& b.subrange(pos + 4, pos + 4 + n) == attr.1
        }),
{
    let (t, value) = attr;
    let b = before + write_attribute(attr) + after;
    let pos = before.len() as int;
    let n = value.len() as int;
    lemma_padded_len(value.len());
    crate::bytes::lemma_be16(t);
    crate::bytes::lemma_be16(value.len() as u16);
    assert(b[pos] == be16_bytes(t)[0] && b[pos + 1] == be16_bytes(t)[1]);
    assert(b[pos + 2] == be16_bytes(value.len() as u16)[0]);
    assert(b[pos + 3] == be16_bytes(value.len() as u16)[1]);
    assert(b.subrange(pos + 4, pos + 4 + n) =~= value);
}

/// Reading gives back the attributes that were written, whatever stands
/// before them and whatever their types and lengths.
#[verifier::spinoff_prover]
pub proof fn lemma_attributes_round_trip(before: Seq<u8>, attrs: Seq<(u16, Seq<u8>)>)
    requires
        can_be_written(attrs),
    ensures
        attributes(before + write_attributes(attrs), before.len() as int) == attrs,
    decreases attrs.len(),
{
    let b = before + write_attributes(attrs);
    let pos = before.len() as int;
    if attrs.len() == 0 {
        assert(b =~= before);
        assert(attributes(b, pos) =~= attrs);
    } else {
        let rest = attrs.skip(1);
        let one = write_attribute(attrs[0]);
        let after = write_attributes(rest);
        let n = attrs[0].1.len();
        assert(n <= 0xffff);
        assert(can_be_written(rest)) by {
            assert forall|i: int| 0 <= i < rest.len() implies (#[trigger] rest[i]).1.len()
                <= 0xffff by {
                assert(rest[i] == attrs[i + 1]);
            }
        }
        lemma_attributes_round_trip(before + one, rest);
        assert(b =~= before + one + after);
        lemma_one_attribute(before, attrs[0], after);
        lemma_padded_len(n);
        let next = pos + 4 + n + (4 - n % 4) % 4;
        assert((before + one).len() == next);
        assert(attributes(b, next) == rest);
        assert(attributes(b, pos) == seq![attrs[0]] + rest);
        assert(seq![attrs[0]] + rest =~= attrs);
    }
}

/// Bytes that begin no whole attribute: too few for a type and a length, or
/// fewer than the length says.
pub open spec fn no_attribute(b: Seq<u8>) -> bool {
    b.len() < 4 || b.len() < 4 + b[2] * 256 + b[3]
}

/// What is left of a list after its last whole attribute is passed over, and
/// costs none of the attributes before it.
#[verifier::spinoff_prover]
pub proof fn lemma_cut_attribute_ends_list(
    before: Seq<u8>,
    attrs: Seq<(u16, Seq<u8>)>,
    cut: Seq<u8>,
)
    requires
        can_be_written(attrs),
        no_attribute(cut),
    ensures
        attributes(before + write_attributes(attrs) + cut, before.len() as int) == attrs,
    decreases attrs.len(),
{
    let b = before + write_attributes(attrs) + cut;
    let pos = before.len() as int;
    if attrs.len() == 0 {
        assert(b =~= before + cut);
        if cut.len() >= 4 {
            assert(b[pos + 2] == cut[2] && b[pos + 3] == cut[3]);
        }
        assert(attributes(b, pos) =~= attrs);
    } else {
        let rest = attrs.skip(1);
        let one = write_attribute(attrs[0]);
        let after = write_attributes(rest) + cut;
        let n = attrs[0].1.len();
        assert(n <= 0xffff);
        assert(can_be_written(rest)) by {
            assert forall|i: int| 0 <= i < rest.len() implies (#[trigger] rest[i]).1.len()
                <= 0xffff by {
                assert(rest[i] == attrs[i + 1]);
            }
        }
        lemma_cut_attribute_ends_list(before + one, rest, cut);
        assert(b =~= before + one + after);
        assert(b =~= (before + one) + write_attributes(rest) + cut);
        lemma_one_attribute(before, attrs[0], after);
        lemma_padded_len(n);
        let next = pos + 4 + n + (4 - n % 4) % 4;
        assert((before + one).len() == next);
        assert(attributes(b, next) == rest);
        assert(attributes(b, pos) == seq![attrs[0]] + rest);
        assert(seq![attrs[0]] + rest =~= attrs);
    }
}

/// No attribute has type `t`.
pub open spec fn without_type(attrs: Seq<(u16, Seq<u8>)>, t: u16) -> bool {
    forall|i: int| 0 <= i < attrs.len() ==> (#[trigger] attrs[i]).0 != t
}

proof fn lemma_last_value(
    before: Seq<(u16, Seq<u8>)>,
    attr: (u16, Seq<u8>),
    after: Seq<(u16, Seq<u8>)>,
)
    requires
        without_type(after, attr.0),
    ensures
        last_value(before.push(attr) + after, attr.0) == Some(attr.1),
    decreases after.len(),
{
    let all = before.push(attr) + after;
    if after.len() == 0 {
        assert(all =~= before.push(attr));
        assert(all.last() == attr);
    } else {
        assert(all.last() == after.last());
        assert(after.last() == after[after.len() - 1]);
        assert(all.drop_last() =~= before.push(attr) + after.drop_last());
        lemma_last_value(before, attr, after.drop_last());
    }
}

proof fn lemma_no_value(attrs: Seq<(u16, Seq<u8>)>, t: u16)
    requires
        without_type(attrs, t),
    ensures
        last_value(attrs, t) is None,
    decreases attrs.len(),
{
    if attrs.len() > 0 {
        assert(attrs.last() == attrs[attrs.len() - 1]);
        lemma_no_value(attrs.drop_last(), t);
    }
}

/// A Binding Response with the given attributes, and bytes after it that do
/// not belong to it.
pub open spec fn response_of(attrs: Seq<(u16, Seq<u8>)>, txn_id: Seq<u8>, tail: Seq<u8>) -> Seq<
    u8,
> {
    let body = write_attributes(attrs);
    header(0x0101, body.len() as u16, txn_id) + body + tail
}

/// A response tells what its attributes tell.
proof fn lemma_response_of(attrs: Seq<(u16, Seq<u8>)>, txn_id: Seq<u8>, tail: Seq<u8>)
    requires
        txn_id.len() == 12,
        can_be_written(attrs),
        write_attributes(attrs).len() <= 0xffff,
    ensures
        binding_response(response_of(attrs, txn_id, tail), txn_id) == (match address_of_attributes(
            attrs,
            txn_id,
        ) {
            Some(a) => Ok::<SocketAddr, StunErrorView>(a),
            None => Err(StunErrorView::NoMappedAddress),
        }),
{
    let body = write_attributes(attrs);
    let buf = response_of(attrs, txn_id, tail);
    let h = header(0x0101, body.len() as u16, txn_id);
    crate::bytes::lemma_be16(0x0101);
    crate::bytes::lemma_be16(body.len() as u16);
    crate::bytes::lemma_be32(MAGIC_COOKIE);
    assert(h.len() == 20);
    assert(buf[0] == be16_bytes(0x0101)[0] && buf[1] == be16_bytes(0x0101)[1]);
    assert(buf[2] == be16_bytes(body.len() as u16)[0]);
    assert(buf[3] == be16_bytes(body.len() as u16)[1]);
    assert(buf[4] == be32_bytes(MAGIC_COOKIE)[0] && buf[5] == be32_bytes(MAGIC_COOKIE)[1]);
    assert(buf[6] == be32_bytes(MAGIC_COOKIE)[2] && buf[7] == be32_bytes(MAGIC_COOKIE)[3]);
    assert(buf.subrange(8, 20) =~= txn_id);
    assert(buf.subrange(20, 20 + body.len() as int) =~= Seq::<u8>::empty() + body);
    lemma_attributes_round_trip(Seq::empty(), attrs);
}

/// The last XOR-MAPPED-ADDRESS of a response gives the address, whatever
/// attributes stand before it and whatever other ones after it, of whatever
/// lengths.
pub proof fn lemma_xor_address_among_others(
    before: Seq<(u16, Seq<u8>)>,
    addr: SocketAddr,
    after: Seq<(u16, Seq<u8>)>,
    txn_id: Seq<u8>,
    tail: Seq<u8>,
)
    requires
        txn_id.len() == 12,
        addr is V6 ==> addr->scope_id == 0,
        can_be_written(before),
        can_be_written(after),
        without_type(after, 0x0020),
        write_attributes(
            before.push((0x0020, encode_address(addr, 0x2112, xor_key(txn_id)))) + after,
        ).len() <= 0xffff,
    ensures
        binding_response(
            response_of(
                before.push((0x0020, encode_address(addr, 0x2112, xor_key(txn_id)))) + after,
                txn_id,
                tail,
            ),
            txn_id,
        ) == Ok::<SocketAddr, StunErrorView>(addr),
{
    let value = encode_address(addr, 0x2112, xor_key(txn_id));
    let all = before.push((0x0020, value)) + after;
    lemma_address_round_trip(addr, 0x2112, xor_key(txn_id), "XOR-MAPPED-ADDRESS"@);
    lemma_encoded_len(addr, 0x2112, xor_key(txn_id));
    lemma_can_be_written(before, (0x0020, value), after);
    lemma_last_value(before, (0x0020, value), after);
    lemma_response_of(all, txn_id, tail);
}

proof fn lemma_can_be_written(
    before: Seq<(u16, Seq<u8>)>,
    attr: (u16, Seq<u8>),
    after: Seq<(u16, Seq<u8>)>,
)
    requires
        can_be_written(before),
        can_be_written(after),
        attr.1.len() <= 0xffff,
    ensures
        can_be_written(before.push(attr) + after),
{
    let all = before.push(attr) + after;
    assert forall|i: int| 0 <= i < all.len() implies (#[trigger] all[i]).1.len() <= 0xffff by {
        if i < before.len() {
            assert(all[i] == before[i]);
        } else if i > before.len() {
            assert(all[i] == after[i - before.len() - 1]);
        }
    }
}

/// Where a response has no XOR-MAPPED-ADDRESS, its last MAPPED-ADDRESS gives
/// the address, among whatever other attributes.
pub proof fn lemma_mapped_address_among_others(
    before: Seq<(u16, Seq<u8>)>,
    addr: SocketAddr,
    after: Seq<(u16, Seq<u8>)>,
    txn_id: Seq<u8>,
    tail: Seq<u8>,
)
    requires
        txn_id.len() == 12,
        addr is V6 ==> addr->scope_id == 0,
        can_be_written(before),
        can_be_written(after),
        without_type(before, 0x0020),
        without_type(after, 0x0020),
        without_type(after, 0x0001),
        write_attributes(
            before.push((0x0001, encode_address(addr, 0, crate::bytes::zeros(16)))) + after,
        ).len() <= 0xffff,
    ensures
        binding_response(
            response_of(
                before.push((0x0001, encode_address(addr, 0, crate::bytes::zeros(16)))) + after,
                txn_id,
                tail,
            ),
            txn_id,
        ) == Ok::<SocketAddr, StunErrorView>(addr),
{
    let key = crate::bytes::zeros(16);
    let value = encode_address(addr, 0, key);
    let all = before.push((0x0001, value)) + after;
    lemma_address_round_trip(addr, 0, key, "MAPPED-ADDRESS"@);
    lemma_encoded_len(addr, 0, key);
    lemma_can_be_written(before, (0x0001, value), after);
    lemma_last_value(before, (0x0001, value), after);
    assert forall|i: int| 0 <= i < all.len() implies (#[trigger] all[i]).0 != 0x0020 by {
        if i < before.len() {
            assert(all[i] == before[i]);
        } else if i > before.len() {
            assert(all[i] == after[i - before.len() - 1]);
        }
    }
    lemma_no_value(all, 0x0020);
    lemma_response_of(all, txn_id, tail);
}

/// A response without either address attribute tells none.
pub proof fn lemma_no_address_attribute(
    attrs: Seq<(u16, Seq<u8>)>,
    txn_id: Seq<u8>,
    tail: Seq<u8>,
)
    requires
        txn_id.len() == 12,
        can_be_written(attrs),
        without_type(attrs, 0x0020),
        without_type(attrs, 0x0001),
        write_attributes(attrs).len() <= 0xffff,
    ensures
        binding_response(response_of(attrs, txn_id, tail), txn_id) == Err::<
            SocketAddr,
            StunErrorView,
        >(StunErrorView::NoMappedAddress),
{
    lemma_no_value(attrs, 0x0020);
    lemma_no_value(attrs, 0x0001);
    lemma_response_of(attrs, txn_id, tail);
}

/// A response is only ever accepted for the transaction that it names: for
/// any other one the same bytes are an error.
pub proof fn lemma_response_for_one_transaction(buf: Seq<u8>, txn_id: Seq<u8>, other: Seq<u8>)
    requires
        binding_response(buf, txn_id) is Ok,
        other != txn_id,
    ensures
        binding_response(buf, other) == Err::<SocketAddr, StunErrorView>(
            StunErrorView::TxnMismatch,
        ),
{
}

/// What is not a message of the protocol is told as such: one shorter than a
/// header, and one whose fifth to eighth bytes are not the magic cookie.
pub proof fn lemma_not_stun(buf: Seq<u8>, txn_id: Seq<u8>)
    requires
        buf.len() < 20 || !(buf[4] == 0x21 && buf[5] == 0x12 && buf[6] == 0xa4 && buf[7] == 0x42),
    ensures
        binding_response(buf, txn_id) matches Err(e) && e is Malformed,
{
}

/// A server's error counts as one whatever its transaction and whatever
/// follows.
pub proof fn lemma_error_response(txn_id: Seq<u8>, len: u16, rest: Seq<u8>, expected: Seq<u8>)
    requires
        txn_id.len() == 12,
    ensures
        binding_response(header(0x0111, len, txn_id) + rest, expected) == Err::<
            SocketAddr,
            StunErrorView,
        >(StunErrorView::ErrorResponse(0)),
{
    let buf = header(0x0111, len, txn_id) + rest;
    crate::bytes::lemma_be32(MAGIC_COOKIE);
    assert(buf[0] == 1 && buf[1] == 0x11);
    assert(buf[4] == be32_bytes(MAGIC_COOKIE)[0] && buf[5] == be32_bytes(MAGIC_COOKIE)[1]);
    assert(buf[6] == be32_bytes(MAGIC_COOKIE)[2] && buf[7] == be32_bytes(MAGIC_COOKIE)[3]);
}

/// A response that is said to be longer than what came is not read.
pub proof fn lemma_cut_response(txn_id: Seq<u8>, len: u16, rest: Seq<u8>)
    requires
        txn_id.len() == 12,
        rest.len() < len,
    ensures
        binding_response(header(0x0101, len, txn_id) + rest, txn_id) matches Err(e)
            && e is Malformed,
{
    let buf = header(0x0101, len, txn_id) + rest;
    crate::bytes::lemma_be16(len);
    crate::bytes::lemma_be32(MAGIC_COOKIE);
    assert(buf[0] == 1 && buf[1] == 1);
    assert(buf[2] == be16_bytes(len)[0] && buf[3] == be16_bytes(len)[1]);
    assert(buf[4] == be32_bytes(MAGIC_COOKIE)[0] && buf[5] == be32_bytes(MAGIC_COOKIE)[1]);
    assert(buf[6] == be32_bytes(MAGIC_COOKIE)[2] && buf[7] == be32_bytes(MAGIC_COOKIE)[3]);
    assert(buf.subrange(8, 20) =~= txn_id);
}

/// A request is not mistaken for a response.
pub proof fn lemma_request_is_no_response(txn_id: Seq<u8>, expected: Seq<u8>)
    requires
        txn_id.len() == 12,
    ensures
        binding_response(header(BINDING_REQUEST, 0, txn_id), expected) is Err,
{
    let h = header(BINDING_REQUEST, 0, txn_id);
    assert(h[0] == 0 && h[1] == 1);
}

// ---------------------------------------------------------------------------
// Asking servers
// ---------------------------------------------------------------------------

/// What came of waiting for a reply.
pub enum Reply {
    /// Bytes from an address.
    Received { from: SocketAddr, bytes: Vec<u8> },
    /// The socket failed.
    Failed(String),
    /// Nothing came in time.
    TimedOut,
}

/// What to do after the first wait.
pub enum ReflectStep {
    Done(Result<SocketAddr, StunError>),
    /// Send the request once more and wait again.
    Retry,
}

pub open spec fn unexpected_source(from: SocketAddr, server: SocketAddr) -> Seq<char> {
    "response from unexpected source: "@ + crate::net::socket_text(from) + " (expected "@
        + crate::net::socket_text(server) + ")"@
}

/// Each wait of an exchange takes half of the time allowed for the whole.
pub fn reflect_wait(timeout: Duration) -> (r: Duration)
    ensures
        r.nanos == timeout.nanos / 2,
        2 * r.nanos <= timeout.nanos <= 2 * r.nanos + 1,
{
    Duration { nanos: timeout.nanos / 2 }
}

/// Decides on the first wait: a reply must come from the server that was
/// asked; silence is answered with one more request.
pub fn reflect_first(reply: Reply, server: SocketAddr, txn_id: &[u8; 12]) -> (r: ReflectStep)
    ensures
        match reply {
            Reply::Received { from, bytes } => if from.spec_ip() != server.spec_ip() {
                r matches ReflectStep::Done(res) && outcome(res) == Err::<
                    SocketAddr,
                    StunErrorView,
                >(StunErrorView::Malformed(unexpected_source(from, server)))
            } else {
                r matches ReflectStep::Done(res) && outcome(res) == binding_response(
                    bytes@,
                    txn_id@,
                )
            },
            Reply::Failed(e) => r matches ReflectStep::Done(res) && outcome(res) == Err::<
                SocketAddr,
                StunErrorView,
            >(StunErrorView::Io(e@)),
            Reply::TimedOut => r is Retry,
        },
{
    match reply {
        Reply::Received { from, bytes } => {
            if from.ip() != server.ip() {
                let mut m = String::new();
                m.append("response from unexpected source: ");
                from.push_text(&mut m);
                m.append(" (expected ");
                server.push_text(&mut m);
                m.append(")");
                assert(m@ =~= unexpected_source(from, server));
                ReflectStep::Done(Err(StunError::Malformed(m)))
            } else {
                ReflectStep::Done(parse_binding_response(bytes.as_slice(), txn_id))
            }
        },
        Reply::Failed(e) => ReflectStep::Done(Err(StunError::Io(e))),
        Reply::TimedOut => ReflectStep::Retry,
    }
}

/// Decides on the second wait, after the retry.
pub fn reflect_second(reply: Reply, txn_id: &[u8; 12]) -> (r: Result<SocketAddr, StunError>)
    ensures
        outcome(r) == match reply {
            Reply::Received { bytes, .. } => binding_response(bytes@, txn_id@),
            Reply::Failed(e) => Err(StunErrorView::Io(e@)),
            Reply::TimedOut => Err(StunErrorView::Timeout),
        },
{
    match reply {
        Reply::Received { bytes, .. } => parse_binding_response(bytes.as_slice(), txn_id),
        Reply::Failed(e) => Err(StunError::Io(e)),
        Reply::TimedOut => Err(StunError::Timeout),
    }
}

/// The first IPv4 address of a name, or else the first IPv6 one.
pub open spec fn preferred_addr(addrs: Seq<SocketAddr>) -> Option<SocketAddr> {
    match first_v4(addrs) {
        Some(a) => Some(a),
        None => if addrs.len() > 0 {
            Some(addrs[0])
        } else {
            None
        },
    }
}

pub open spec fn first_v4(addrs: Seq<SocketAddr>) -> Option<SocketAddr>
    decreases addrs.len(),
{
    if addrs.len() == 0 {
        None
    } else if addrs[0] is V4 {
        Some(addrs[0])
    } else {
        first_v4(addrs.skip(1))
    }
}

/// Picks the address to use among those that `host_port` resolved to.
pub fn pick_stun_addr(host_port: &str, addrs: &[SocketAddr]) -> (r: Result<SocketAddr, StunError>)
    ensures
        outcome(r) == match preferred_addr(addrs@) {
            Some(a) => Ok(a),
            None => Err(StunErrorView::DnsError(host_port@ + ": no addresses resolved"@)),
        },
{
    let mut i: usize = 0;
    assert(addrs@.skip(0) =~= addrs@);
    while i < addrs.len()
        invariant
            i <= addrs@.len(),
            first_v4(addrs@) == first_v4(addrs@.skip(i as int)),
        decreases addrs.len() - i,
    {
        assert(addrs@.skip(i as int)[0] == addrs@[i as int]);
        assert(addrs@.skip(i as int).skip(1) =~= addrs@.skip(i + 1));
        if !addrs[i].is_ipv6() {
            return Ok(addrs[i]);
        }
        i += 1;
    }
    if addrs.len() > 0 {
        return Ok(addrs[0]);
    }
    let mut m = String::from_str(host_port);
    m.append(": no addresses resolved");
    Err(StunError::DnsError(m))
}

/// The first success, or else the last error.
pub open spec fn first_success(outcomes: Seq<Result<SocketAddr, StunErrorView>>) -> Result<
    SocketAddr,
    StunErrorView,
>
    decreases outcomes.len(),
{
    if outcomes.len() == 0 {
        Err(StunErrorView::Io("no STUN servers responded"@))
    } else {
        match first_success(outcomes.drop_last()) {
            Ok(a) => Ok(a),
            Err(_) => outcomes.last(),
        }
    }
}

pub open spec fn outcomes_view(v: Seq<Result<SocketAddr, StunError>>) -> Seq<
    Result<SocketAddr, StunErrorView>,
> {
    v.map_values(|r: Result<SocketAddr, StunError>| outcome(r))
}

/// What the answers of `servers` servers amount to, in the order in which
/// they came.
pub fn discovery_result(servers: usize, outcomes: Vec<Result<SocketAddr, StunError>>) -> (r: Result<
    SocketAddr,
    StunError,
>)
    ensures
        servers == 0 ==> outcome(r) == Err::<SocketAddr, StunErrorView>(
            StunErrorView::Io("no STUN servers configured"@),
        ),
        servers > 0 ==> outcome(r) == first_success(outcomes_view(outcomes@)),
{
    if servers == 0 {
        return Err(StunError::Io(String::from_str("no STUN servers configured")));
    }
    let ghost all = outcomes_view(outcomes@);
    let mut rest = outcomes;
    let mut last: Result<SocketAddr, StunError> = Err(
        StunError::Io(String::from_str("no STUN servers responded")),
    );
    let ghost mut done: int = 0;
    assert(all.take(0) =~= Seq::empty());
    assert(all.skip(0) =~= all);
    while rest.len() > 0
        invariant
            0 <= done <= all.len(),
            outcomes_view(rest@) == all.skip(done),
            outcome(last) == first_success(all.take(done)),
        decreases rest.len(),
    {
        let ghost before = rest@;
        let answer = rest.remove(0);
        proof {
            assert(outcomes_view(before).len() == before.len());
            assert(all.skip(done).len() == all.len() - done);
            assert(outcomes_view(before)[0] == outcome(before[0]));
            assert(outcome(answer) == all[done]);
            assert(all.take(done + 1).drop_last() =~= all.take(done));
            assert(all.take(done + 1).last() == all[done]);
            assert(outcomes_view(rest@) =~= outcomes_view(before).skip(1));
            assert(all.skip(done).skip(1) =~= all.skip(done + 1));
            done = done + 1;
        }
        last = match last {
            Ok(a) => Ok(a),
            Err(_) => answer,
        };
    }
    proof {
        assert(all.skip(done).len() == 0);
        assert(all.take(done) =~= all);
    }
    last
}

/// An IPv4 address is picked wherever there is one, the first of them; else
/// the first address.
pub proof fn lemma_v4_preferred(addrs: Seq<SocketAddr>)
    ensures
        match preferred_addr(addrs) {
            Some(a) => exists|i: int|
                0 <= i < addrs.len() && #[trigger] addrs[i] == a && (a is V6 ==> i == 0) && (
                forall|j: int| 0 <= j < i ==> (#[trigger] addrs[j]) is V6),
            None => addrs.len() == 0,
        },
        (exists|j: int| 0 <= j < addrs.len() && (#[trigger] addrs[j]) is V4)
            <==> (preferred_addr(addrs) matches Some(a) && a is V4),
{
    lemma_first_v4(addrs);
    if addrs.len() > 0 && first_v4(addrs) is None {
        assert(addrs[0] == preferred_addr(addrs)->0);
        assert(addrs[0] is V6);
    }
}

proof fn lemma_first_v4(addrs: Seq<SocketAddr>)
    ensures
        match first_v4(addrs) {
            Some(a) => a is V4 && exists|i: int|
                0 <= i < addrs.len() && #[trigger] addrs[i] == a && (forall|j: int|
                    0 <= j < i ==> (#[trigger] addrs[j]) is V6),
            None => forall|j: int| 0 <= j < addrs.len() ==> (#[trigger] addrs[j]) is V6,
        },
    decreases addrs.len(),
{
    if addrs.len() > 0 {
        if addrs[0] is V4 {
            assert(addrs[0] == first_v4(addrs)->0);
        } else {
            let rest = addrs.skip(1);
            lemma_first_v4(rest);
            match first_v4(rest) {
                Some(a) => {
                    let i = choose|i: int|
                        0 <= i < rest.len() && #[trigger] rest[i] == a && (forall|j: int|
                            0 <= j < i ==> (#[trigger] rest[j]) is V6);
                    assert(addrs[i + 1] == a);
                    assert forall|j: int| 0 <= j < i + 1 implies (#[trigger] addrs[j]) is V6 by {
                        if j > 0 {
                            assert(rest[j - 1] is V6);
                        }
                    }
                },
                None => {
                    assert forall|j: int| 0 <= j < addrs.len() implies (
                    #[trigger] addrs[j]) is V6 by {
                        if j > 0 {
                            assert(rest[j - 1] is V6);
                        }
                    }
                },
            }
        }
    }
}

/// Of the answers the first success counts, whatever comes after it; only
/// where all have failed is there an error, and it is the last one.
pub proof fn lemma_first_success_counts(outcomes: Seq<Result<SocketAddr, StunErrorView>>)
    requires
        outcomes.len() > 0,
    ensures
        match first_success(outcomes) {
            Ok(a) => exists|i: int|
                0 <= i < outcomes.len() && #[trigger] outcomes[i] == Ok::<SocketAddr, StunErrorView>(
                    a,
                ) && (forall|j: int| 0 <= j < i ==> (#[trigger] outcomes[j]) is Err),
            Err(e) => (forall|j: int| 0 <= j < outcomes.len() ==> (#[trigger] outcomes[j]) is Err)
                && outcomes.last() == Err::<SocketAddr, StunErrorView>(e),
        },
    decreases outcomes.len(),
{
    let shorter = outcomes.drop_last();
    let n = shorter.len() as int;
    assert(outcomes[n] == outcomes.last());
    if shorter.len() > 0 {
        lemma_first_success_counts(shorter);
        match first_success(shorter) {
            Ok(a) => {
                let i = choose|i: int|
                    0 <= i < shorter.len() && #[trigger] shorter[i] == Ok::<
                        SocketAddr,
                        StunErrorView,
                    >(a) && (forall|j: int| 0 <= j < i ==> (#[trigger] shorter[j]) is Err);
                assert(outcomes[i] == Ok::<SocketAddr, StunErrorView>(a));
                assert forall|j: int| 0 <= j < i implies (#[trigger] outcomes[j]) is Err by {
                    assert(shorter[j] is Err);
                }
            },
            Err(_) => {
                assert forall|j: int| 0 <= j < n implies (#[trigger] outcomes[j]) is Err by {
                    assert(shorter[j] is Err);
                }
            },
        }
    }
}

// ---------------------------------------------------------------------------
// Port allocation
// ---------------------------------------------------------------------------

/// How a NAT chooses external ports for flows from one socket.
#[derive(Debug, Clone, Copy, PartialEq, Eq, Structural)]
pub enum PortAllocation {
    /// The same external port for all destinations.
    PortPreserving,
    /// Ports differ by a consistent delta from flow to flow.
    Sequential { delta: i16 },
    /// No discernible pattern.
    Random,
    /// Not enough data to tell.
    Unknown,
}

pub open spec fn allocation_text(a: PortAllocation) -> Seq<char> {
    match a {
        PortAllocation::PortPreserving => "port-preserving"@,
        PortAllocation::Sequential { delta } => "sequential(delta="@ + crate::text::decimal_int(
            delta as int,
        ) + ")"@,
        PortAllocation::Random => "random"@,
        PortAllocation::Unknown => "unknown"@,
    }
}

impl PortAllocation {
    pub fn to_string(&self) -> (r: String)
        ensures
            r@ == allocation_text(*self),
    {
        let mut out = String::new();
        match self {
            PortAllocation::PortPreserving => out.append("port-preserving"),
            PortAllocation::Sequential { delta } => {
                out.append("sequential(delta=");
                push_decimal_int(&mut out, *delta as i64);
                out.append(")");
            },
            PortAllocation::Random => out.append("random"),
            PortAllocation::Unknown => out.append("unknown"),
        }
        assert(out@ =~= allocation_text(*self));
        out
    }
}

#[derive(Debug, Clone)]
pub struct PortAllocationResult {
    pub allocation: PortAllocation,
    /// Observed external ports, in the order of the probes.
    pub observed_ports: Vec<u16>,
    /// The external address that the probes agree on.
    pub external_ip: Option<IpAddr>,
}

/// The signed 16-bit number that `d` is congruent to modulo 65536.
pub open spec fn signed16(d: int) -> i16 {
    if d % 65536 < 32768 {
        (d % 65536) as i16
    } else {
        (d % 65536 - 65536) as i16
    }
}

/// The steps from each port to the next, the short way round.
pub open spec fn deltas(ports: Seq<u16>) -> Seq<i16> {
    Seq::new((ports.len() - 1) as nat, |i: int| signed16(ports[i + 1] - ports[i]))
}

/// Two steps that differ by at most one, the short way round.
pub open spec fn close(d: i16, e: i16) -> bool {
    -1 <= signed16(d - e) <= 1
}

pub open spec fn count(ds: Seq<i16>, d: i16) -> nat
    decreases ds.len(),
{
    if ds.len() == 0 {
        0
    } else {
        count(ds.drop_last(), d) + if ds.last() == d {
            1nat
        } else {
            0nat
        }
    }
}

/// At least sixty percent of the steps are `d`.
pub open spec fn dominant(ds: Seq<i16>, d: i16) -> bool {
    5 * count(ds, d) >= 3 * ds.len()
}

/// `a` is how the NAT that gave these ports, in this order, allocates them.
pub open spec fn allocation_of(ports: Seq<u16>, a: PortAllocation) -> bool {
    let ds = deltas(ports);
    if ports.len() < 2 {
        a == PortAllocation::Unknown
    } else if forall|i: int| 0 <= i < ports.len() ==> #[trigger] ports[i] == ports[0] {
        a == PortAllocation::PortPreserving
    } else if ports.len() < 3 {
        a == PortAllocation::Unknown
    } else if ds[0] == 0 {
        a == PortAllocation::Random
    } else if forall|i: int| 0 <= i < ds.len() ==> close(#[trigger] ds[i], ds[0]) {
        a == (PortAllocation::Sequential { delta: ds[0] })
    } else {
        match a {
            PortAllocation::Sequential { delta } => delta != 0 && dominant(ds, delta),
            PortAllocation::Random => forall|d: i16| d != 0 ==> !#[trigger] dominant(ds, d),
            _ => false,
        }
    }
}

proof fn lemma_counts(ds: Seq<i16>, d: i16, e: i16)
    requires
        d != e,
    ensures
        count(ds, d) + count(ds, e) <= ds.len(),
    decreases ds.len(),
{
    if ds.len() > 0 {
        lemma_counts(ds.drop_last(), d, e);
    }
}

/// A step that occurs is counted, and one that does not is not.
proof fn lemma_count_positive(ds: Seq<i16>, d: i16)
    ensures
        count(ds, d) > 0 ==> exists|i: int| 0 <= i < ds.len() && #[trigger] ds[i] == d,
    decreases ds.len(),
{
    if ds.len() > 0 {
        if ds.last() == d {
            assert(ds[ds.len() - 1] == d);
        } else {
            lemma_count_positive(ds.drop_last(), d);
            if count(ds, d) > 0 {
                let i = choose|i: int|
                    0 <= i < ds.drop_last().len() && #[trigger] ds.drop_last()[i] == d;
                assert(ds[i] == d);
            }
        }
    }
}

/// The pattern of a sequence of ports is determined: there is only one.
pub proof fn lemma_allocation_unique(ports: Seq<u16>, a: PortAllocation, b: PortAllocation)
    requires
        allocation_of(ports, a),
        allocation_of(ports, b),
    ensures
        a == b,
{
    let ds = deltas(ports);
    match (a, b) {
        (PortAllocation::Sequential { delta: d }, PortAllocation::Sequential { delta: e }) => {
            if d != e {
                lemma_counts(ds, d, e);
            }
        },
        _ => {},
    }
}

fn signed16_exec(p: u16, q: u16) -> (r: i16)
    ensures
        r == signed16(q - p),
{
    let m: u32 = (q as u32 + 65536 - p as u32) % 65536;
    assert(m == (q - p) % 65536) by {
        if q >= p {
            assert((q + 65536 - p) % 65536 == (q - p) % 65536);
        }
    }
    if m < 32768 {
        m as i16
    } else {
        (m as i32 - 65536) as i16
    }
}

fn close_exec(d: i16, e: i16) -> (r: bool)
    ensures
        r == close(d, e),
{
    let diff: i32 = d as i32 - e as i32;
    diff == 0 || diff == 1 || diff == -1 || diff == 65535 || diff == -65535
}

fn count_exec(ds: &Vec<i16>, d: i16) -> (r: usize)
    ensures
        r == count(ds@, d),
        r <= ds@.len(),
{
    let mut n: usize = 0;
    let mut i: usize = 0;
    while i < ds.len()
        invariant
            i <= ds@.len(),
            n <= i,
            n == count(ds@.take(i as int), d),
        decreases ds.len() - i,
    {
        assert(ds@.take(i + 1).drop_last() =~= ds@.take(i as int));
        if ds[i] == d {
            n += 1;
        }
        i += 1;
    }
    assert(ds@.take(i as int) =~= ds@);
    n
}

/// Classifies a sequence of observed external ports.
pub fn classify_port_allocation(ports: &[u16]) -> (r: PortAllocation)
    ensures
        allocation_of(ports@, r),
{
    if ports.len() < 2 {
        return PortAllocation::Unknown;
    }
    let mut same = true;
    let mut i: usize = 0;
    while i < ports.len()
        invariant
            i <= ports@.len(),
            2 <= ports@.len(),
            same == forall|j: int| 0 <= j < i ==> #[trigger] ports@[j] == ports@[0],
        decreases ports.len() - i,
    {
        if ports[i] != ports[0] {
            same = false;
        }
        i += 1;
    }
    if same {
        return PortAllocation::PortPreserving;
    }
    if ports.len() < 3 {
        return PortAllocation::Unknown;
    }
    let mut ds: Vec<i16> = Vec::new();
    let mut k: usize = 1;
    while k < ports.len()
        invariant
            1 <= k <= ports@.len(),
            ds@ == deltas(ports@).take(k - 1),
        decreases ports.len() - k,
    {
        ds.push(signed16_exec(ports[k - 1], ports[k]));
        k += 1;
        assert(ds@ =~= deltas(ports@).take(k - 1));
    }
    assert(ds@ =~= deltas(ports@));
    let first: i16 = ds[0];
    if first == 0 {
        return PortAllocation::Random;
    }
    let mut all_close = true;
    let mut c: usize = 0;
    while c < ds.len()
        invariant
            c <= ds@.len(),
            all_close == forall|j: int| 0 <= j < c ==> close(#[trigger] ds@[j], first),
        decreases ds.len() - c,
    {
        if !close_exec(ds[c], first) {
            all_close = false;
        }
        c += 1;
    }
    if all_close {
        return PortAllocation::Sequential { delta: first };
    }
    let mut m: usize = 0;
    let mut found: Option<i16> = None;
    while m < ds.len() && found.is_none()
        invariant
            m <= ds@.len(),
            found is None ==> forall|j: int|
                0 <= j < m && ds@[j] != 0 ==> !dominant(ds@, #[trigger] ds@[j]),
            found matches Some(d) ==> d != 0 && dominant(ds@, d),
        decreases ds.len() - m,
    {
        let d: i16 = ds[m];
        if d != 0 {
            let n: usize = count_exec(&ds, d);
            if n as u128 * 5 >= ds.len() as u128 * 3 {
                assert(dominant(ds@, d));
                found = Some(d);
            }
        }
        m += 1;
    }
    if let Some(d) = found {
        return PortAllocation::Sequential { delta: d };
    }
    proof {
        assert forall|d: i16| d != 0 implies !#[trigger] dominant(ds@, d) by {
            if dominant(ds@, d) {
                lemma_count_positive(ds@, d);
                let j = choose|j: int| 0 <= j < ds@.len() && #[trigger] ds@[j] == d;
                assert(!dominant(ds@, ds@[j]));
            }
        }
    }
    PortAllocation::Random
}

/// What probes from one socket to `servers` servers tell of the NAT, given
/// the addresses observed, in the order of the probes.
pub fn port_allocation_result(servers: usize, observed: &[SocketAddr]) -> (r: PortAllocationResult)
    ensures
        servers < 2 ==> r.allocation == PortAllocation::Unknown && r.observed_ports@.len() == 0
            && r.external_ip is None,
        servers >= 2 ==> {
            &&& r.observed_ports@ == observed@.map_values(|a: SocketAddr| a.spec_port())
            &&& r.external_ip == if observed@.len() > 0 && forall|i: int|
                0 <= i < observed@.len() ==> (#[trigger] observed@[i]).spec_ip()
                    == observed@[0].spec_ip() {
                Some(observed@[0].spec_ip())
            } else {
                None
            }
            &&& allocation_of(r.observed_ports@, r.allocation)
        },
{
    if servers < 2 {
        return PortAllocationResult {
            allocation: PortAllocation::Unknown,
            observed_ports: Vec::new(),
            external_ip: None,
        };
    }
    let mut ports: Vec<u16> = Vec::new();
    let mut agreed = true;
    let mut i: usize = 0;
    while i < observed.len()
        invariant
            i <= observed@.len(),
            ports@ == observed@.map_values(|a: SocketAddr| a.spec_port()).take(i as int),
            agreed == forall|k: int|
                0 <= k < i ==> (#[trigger] observed@[k]).spec_ip() == observed@[0].spec_ip(),
        decreases observed.len() - i,
    {
        ports.push(observed[i].port());
        if observed[i].ip() != observed[0].ip() {
            agreed = false;
        }
        i += 1;
        assert(ports@ =~= observed@.map_values(|a: SocketAddr| a.spec_port()).take(i as int));
    }
    assert(ports@ =~= observed@.map_values(|a: SocketAddr| a.spec_port()));
    let external_ip = if observed.len() > 0 && agreed {
        Some(observed[0].ip())
    } else {
        None
    };
    let allocation = classify_port_allocation(ports.as_slice());
    PortAllocationResult { allocation, observed_ports: ports, external_ip }
}

/// The `i`-th guess around the next port that a sequential NAT gives out,
/// `offset` further flows having taken a port in between.
pub open spec fn guess(last_port: u16, delta: i16, offset: u16, i: int) -> int {
    (last_port + delta * (offset + 1) + i * delta) % 65536
}

pub open spec fn predicted(last_port: u16, delta: i16, offset: u16, spread: u16, p: u16) -> bool {
    p != 0 && exists|i: int| -spread <= i <= spread && #[trigger] guess(last_port, delta, offset, i) == p
}

/// The next port of a sequential NAT is among the guesses, whatever the
/// spread: it is `offset` further steps on from the last one.
pub proof fn lemma_next_port_predicted(
    last_port: u16,
    delta: i16,
    offset: u16,
    spread: u16,
    p: u16,
)
    requires
        p == (last_port + delta * (offset + 1)) % 65536,
        p != 0,
    ensures
        predicted(last_port, delta, offset, spread, p),
{
    assert(0 * delta == 0) by (nonlinear_arith);
    assert(guess(last_port, delta, offset, 0) == p);
}

/// A wider spread loses no guess.
pub proof fn lemma_spread_grows(
    last_port: u16,
    delta: i16,
    offset: u16,
    narrow: u16,
    wide: u16,
    p: u16,
)
    requires
        narrow <= wide,
        predicted(last_port, delta, offset, narrow, p),
    ensures
        predicted(last_port, delta, offset, wide, p),
{
}

/// The `i`-th port of a NAT that gives out ports in steps of `delta`.
pub open spec fn stepped(first: u16, delta: i16, i: int) -> u16 {
    ((first + i * delta) % 65536) as u16
}

proof fn lemma_stepped(first: u16, delta: i16, i: int)
    ensures
        signed16(stepped(first, delta, i + 1) - stepped(first, delta, i)) == delta,
{
    let x = first + i * delta;
    assert((i + 1) * delta == i * delta + delta) by (nonlinear_arith);
    assert(((x + delta) % 65536 - x % 65536) % 65536 == delta as int % 65536);
}

/// A NAT that gives out ports in equal steps is recognised from three of them
/// on, with its step, across the end of the port range too; one that always
/// gives out the same port is recognised from two.
pub proof fn lemma_steps_recognised(ports: Seq<u16>, first: u16, delta: i16, a: PortAllocation)
    requires
        forall|i: int| 0 <= i < ports.len() ==> #[trigger] ports[i] == stepped(first, delta, i),
        ports.len() >= 3 || delta == 0 && ports.len() >= 2,
        allocation_of(ports, a),
    ensures
        a == if delta == 0 {
            PortAllocation::PortPreserving
        } else {
            PortAllocation::Sequential { delta }
        },
{
    let ds = deltas(ports);
    assert forall|i: int| 0 <= i < ds.len() implies #[trigger] ds[i] == delta by {
        lemma_stepped(first, delta, i);
        assert(ports[i] == stepped(first, delta, i));
        assert(ports[i + 1] == stepped(first, delta, i + 1));
    }
    if delta == 0 {
        assert forall|i: int| 0 <= i < ports.len() implies #[trigger] ports[i] == ports[0] by {
            assert(i * 0 == 0 && 0 * 0 == 0) by (nonlinear_arith);
            assert(ports[0] == stepped(first, delta, 0));
        }
    } else {
        assert(ds[0] == delta);
        assert(ports[0] == stepped(first, delta, 0));
        assert(ports[1] == stepped(first, delta, 1));
        assert(ports[1] != ports[0]);
        assert forall|i: int| 0 <= i < ds.len() implies close(#[trigger] ds[i], ds[0]) by {}
    }
}

/// Steps that differ by at most one from the first still count as equal.
pub proof fn lemma_close_steps(d: i16, e: i16)
    requires
        -32767 <= d - e <= 32767,
    ensures
        close(d, e) <==> -1 <= d - e <= 1,
{
}

/// The port that such a NAT gives out next is among the guesses that are made
/// from the last one, and so are the ones up to `spread` steps before and
/// after it; the offset counts flows that come in between.
pub proof fn lemma_steps_predicted(
    first: u16,
    delta: i16,
    n: int,
    offset: u16,
    spread: u16,
    i: int,
)
    requires
        -spread <= i <= spread,
        stepped(first, delta, n + 1 + offset + i) != 0,
    ensures
        predicted(
            stepped(first, delta, n),
            delta,
            offset,
            spread,
            stepped(first, delta, n + 1 + offset + i),
        ),
{
    let last = stepped(first, delta, n);
    let x = first + n * delta;
    let d = delta as int;
    let m = offset + 1;
    assert((n + 1 + offset + i) * d == n * d + (d * m + i * d)) by (nonlinear_arith)
        requires
            m == offset + 1,
    ;
    vstd::arithmetic::div_mod::lemma_add_mod_noop_right(d * m + i * d, x, 65536);
    assert(guess(last, delta, offset, i) == stepped(first, delta, n + 1 + offset + i));
}

/// Nothing but such ports is guessed.
pub proof fn lemma_only_steps_predicted(
    first: u16,
    delta: i16,
    n: int,
    offset: u16,
    spread: u16,
    p: u16,
) -> (i: int)
    requires
        predicted(stepped(first, delta, n), delta, offset, spread, p),
    ensures
        -spread <= i <= spread,
        p == stepped(first, delta, n + 1 + offset + i),
        p != 0,
{
    let last = stepped(first, delta, n);
    let i = choose|i: int|
        -spread <= i <= spread && #[trigger] guess(last, delta, offset, i) == p;
    let x = first + n * delta;
    let d = delta as int;
    let m = offset + 1;
    assert((n + 1 + offset + i) * d == n * d + (d * m + i * d)) by (nonlinear_arith)
        requires
            m == offset + 1,
    ;
    vstd::arithmetic::div_mod::lemma_add_mod_noop_right(d * m + i * d, x, 65536);
    i
}

/// How often a step occurs.
proof fn lemma_count_is_occurrences(ds: Seq<i16>, d: i16)
    ensures
        count(ds, d) == ds.to_multiset().count(d),
    decreases ds.len(),
{
    broadcast use vstd::seq_lib::group_to_multiset_ensures;

    if ds.len() > 0 {
        lemma_count_is_occurrences(ds.drop_last(), d);
        assert(ds =~= ds.drop_last().push(ds.last()));
    }
}

/// Where steps differ by more than one, a step that makes up sixty percent of
/// them or more is taken for that of the NAT, and without one the ports are
/// taken to be random.
pub proof fn lemma_most_steps_decide(ports: Seq<u16>, a: PortAllocation, d: i16)
    requires
        ports.len() >= 3,
        ports[1] != ports[0],
        allocation_of(ports, a),
        exists|i: int|
            0 <= i < deltas(ports).len() && !close(#[trigger] deltas(ports)[i], deltas(ports)[0]),
    ensures
        d != 0 && 100 * deltas(ports).to_multiset().count(d) >= 60 * (ports.len() - 1) ==> a == (
        PortAllocation::Sequential { delta: d }),
        a matches PortAllocation::Sequential { delta } ==> 100 * deltas(
            ports,
        ).to_multiset().count(delta) >= 60 * (ports.len() - 1),
        a is Random || a is Sequential,
{
    let ds = deltas(ports);
    lemma_count_is_occurrences(ds, d);
    if let PortAllocation::Sequential { delta } = a {
        lemma_count_is_occurrences(ds, delta);
        if d != delta {
            lemma_counts(ds, d, delta);
        }
    }
    assert(ds[0] == signed16(ports[1] - ports[0]));
    assert(dominant(ds, d) <==> 5 * count(ds, d) >= 3 * ds.len());
}

/// The guesses within `spread` steps of the most likely next port, in
/// ascending order and each once; port zero is none.
pub fn predict_ports(last_port: u16, delta: i16, offset: u16, spread: u16) -> (r: Vec<u16>)
    ensures
        forall|i: int, j: int| 0 <= i < j < r@.len() ==> r@[i] < r@[j],
        forall|p: u16| r@.contains(p) <==> predicted(last_port, delta, offset, spread, p),
{
    let mut hit: Vec<bool> = vec![false; 65536];
    assert(-0x1_0000_0000 <= delta as i64 * (offset as i64 + 1) <= 0x1_0000_0000) by (nonlinear_arith)
        requires
            -32768 <= delta <= 32767,
            0 <= offset <= 65535,
    ;
    let base: i64 = last_port as i64 + delta as i64 * (offset as i64 + 1);
    let mut i: i64 = -(spread as i64);
    while i <= spread as i64
        invariant
            -spread <= i <= spread + 1,
            hit@.len() == 65536,
            base == last_port + delta * (offset + 1),
            -0x1_0000_0000 <= base <= 0x1_0001_0000,
            forall|p: int|
                0 <= p < 65536 ==> (#[trigger] hit@[p] <==> exists|k: int|
                    -spread <= k < i && #[trigger] guess(last_port, delta, offset, k) == p),
        decreases spread + 1 - i,
    {
        assert(-0x1_0000_0000 <= i * delta <= 0x1_0000_0000) by (nonlinear_arith)
            requires
                -32768 <= delta <= 32767,
                -65535 <= i <= 65535,
        ;
        let p: i64 = base + i * delta as i64;
        let m: i64 = (p + 0x4_0000_0000) % 65536;
        assert(m == p % 65536);
        assert(m == guess(last_port, delta, offset, i as int));
        let ghost before = hit@;
        hit.set(m as usize, true);
        proof {
            assert forall|q: int| 0 <= q < 65536 implies (#[trigger] hit@[q] <==> exists|k: int|
                -spread <= k < i + 1 && #[trigger] guess(last_port, delta, offset, k) == q) by {
                if q == m {
                    assert(guess(last_port, delta, offset, i as int) == q);
                } else {
                    assert(hit@[q] == before[q]);
                    if before[q] {
                        let k = choose|k: int|
                            -spread <= k < i && #[trigger] guess(last_port, delta, offset, k) == q;
                        assert(guess(last_port, delta, offset, k) == q);
                    }
                }
            }
        }
        i += 1;
    }
    let mut r: Vec<u16> = Vec::new();
    let mut p: usize = 1;
    while p < 65536
        invariant
            1 <= p <= 65536,
            hit@.len() == 65536,
            forall|a: int, b: int| 0 <= a < b < r@.len() ==> r@[a] < r@[b],
            forall|a: int| 0 <= a < r@.len() ==> 1 <= #[trigger] r@[a] < p && hit@[r@[a] as int],
            forall|q: u16| 1 <= q < p && hit@[q as int] ==> #[trigger] r@.contains(q),
        decreases 65536 - p,
    {
        if hit[p] {
            let ghost before = r@;
            r.push(p as u16);
            proof {
                assert forall|q: u16| 1 <= q < p + 1 && hit@[q as int] implies #[trigger] r@.contains(
                    q,
                ) by {
                    if q == p {
                        assert(r@[before.len() as int] == q);
                    } else {
                        assert(before.contains(q));
                        let a = choose|a: int| 0 <= a < before.len() && before[a] == q;
                        assert(r@[a] == q);
                    }
                }
            }
        }
        p += 1;
    }
    proof {
        assert forall|q: u16| r@.contains(q) <==> predicted(last_port, delta, offset, spread, q) by {
            if r@.contains(q) {
                let a = choose|a: int| 0 <= a < r@.len() && r@[a] == q;
                assert(hit@[r@[a] as int]);
            }
            if predicted(last_port, delta, offset, spread, q) {
                assert(hit@[q as int]);
            }
        }
    }
    r
}

} // verus!
