//! Addresses: IPv4 and IPv6, with and without a port, and their text forms.
use vstd::prelude::*;
use vstd::string::StringExecFns;

use crate::text::{
    chars_of, copy_range, index_of_from_exec, parse_decimal_exec, parse_hex_exec, push_decimal,
    push_hex, split_exec,
};

verus! {

broadcast use vstd::string::group_string_axioms;

#[derive(Clone, Copy, Debug, PartialEq, Eq, Structural)]
pub struct Ipv4Addr {
    pub a: u8,
    pub b: u8,
    pub c: u8,
    pub d: u8,
}

/// Eight 16-bit groups, the most significant first.
#[derive(Clone, Copy, Debug, PartialEq, Eq, Structural)]
pub struct Ipv6Addr {
    pub g0: u16,
    pub g1: u16,
    pub g2: u16,
    pub g3: u16,
    pub g4: u16,
    pub g5: u16,
    pub g6: u16,
    pub g7: u16,
}

#[derive(Clone, Copy, Debug, PartialEq, Eq, Structural)]
pub enum IpAddr {
    V4(Ipv4Addr),
    V6(Ipv6Addr),
}

/// An address with a port. Only IPv6 addresses carry a scope.
#[allow(inconsistent_fields)]
#[derive(Clone, Copy, Debug, PartialEq, Eq, Structural)]
pub enum SocketAddr {
    V4 { ip: Ipv4Addr, port: u16 },
    V6 { ip: Ipv6Addr, port: u16, scope_id: u32 },
}

// ---------------------------------------------------------------------------
// Text forms
// ---------------------------------------------------------------------------

pub open spec fn v4_text(ip: Ipv4Addr) -> Seq<char> {
    crate::text::decimal(ip.a as nat) + seq!['.'] + (crate::text::decimal(ip.b as nat) + seq!['.']
        + (crate::text::decimal(ip.c as nat) + seq!['.'] + crate::text::decimal(ip.d as nat)))
}

/// The number of zero groups in a row from `i` on.
pub open spec fn zeros_at(g: Seq<u16>, i: int) -> int
    decreases g.len() - i,
{
    if i < 0 || i >= g.len() || g[i] != 0 {
        0
    } else {
        1 + zeros_at(g, i + 1)
    }
}

/// The start of the longest run of zero groups among the starts below `n`,
/// the first of several that are equally long.
pub open spec fn longest_zeros(g: Seq<u16>, n: int) -> int
    decreases n,
{
    if n <= 1 {
        0
    } else {
        let best = longest_zeros(g, n - 1);
        if zeros_at(g, n - 1) > zeros_at(g, best) {
            n - 1
        } else {
            best
        }
    }
}

/// Groups in hexadecimal, separated by colons.
pub open spec fn groups_text(g: Seq<u16>) -> Seq<char>
    decreases g.len(),
{
    if g.len() == 0 {
        Seq::empty()
    } else if g.len() == 1 {
        crate::text::hex(g[0] as nat)
    } else {
        groups_text(g.drop_last()) + seq![':'] + crate::text::hex(g.last() as nat)
    }
}

/// The text of an IPv6 address: an IPv4-mapped address ends in dotted form;
/// otherwise the longest run of at least two zero groups becomes `::`.
pub open spec fn v6_text(ip: Ipv6Addr) -> Seq<char> {
    let g = ip.groups();
    let z = longest_zeros(g, 8);
    let n = zeros_at(g, z);
    if g.take(5) == seq![0u16, 0, 0, 0, 0] && g[5] == 0xffff {
        "::ffff:"@ + v4_text(mapped_v4(ip))
    } else if n > 1 {
        groups_text(g.take(z)) + "::"@ + groups_text(g.skip(z + n))
    } else {
        groups_text(g)
    }
}

/// The IPv4 address held in the last two groups.
pub open spec fn mapped_v4(ip: Ipv6Addr) -> Ipv4Addr {
    v4_of_groups(ip.g6, ip.g7)
}

pub open spec fn v4_of_groups(hi: u16, lo: u16) -> Ipv4Addr {
    Ipv4Addr {
        a: (hi / 256) as u8,
        b: (hi % 256) as u8,
        c: (lo / 256) as u8,
        d: (lo % 256) as u8,
    }
}

pub open spec fn ip_text(ip: IpAddr) -> Seq<char> {
    match ip {
        IpAddr::V4(ip) => v4_text(ip),
        IpAddr::V6(ip) => v6_text(ip),
    }
}

/// `ip:port` for IPv4 and `[ip]:port` or `[ip%scope]:port` for IPv6.
pub open spec fn socket_text(addr: SocketAddr) -> Seq<char> {
    match addr {
        SocketAddr::V4 { ip, port } => v4_text(ip) + seq![':'] + crate::text::decimal(port as nat),
        SocketAddr::V6 { ip, port, scope_id } => {
            let scope = if scope_id == 0 {
                Seq::empty()
            } else {
                seq!['%'] + crate::text::decimal(scope_id as nat)
            };
            seq!['['] + v6_text(ip) + scope + "]:"@ + crate::text::decimal(port as nat)
        },
    }
}

// ---------------------------------------------------------------------------
// Reading text
// ---------------------------------------------------------------------------

/// One octet of a dotted address: at most three digits, no leading zero.
pub open spec fn octet_value(p: Seq<char>) -> Option<u8> {
    match crate::text::parse_decimal(p) {
        Some(v) => if p.len() <= 3 && v <= 255 && (p.len() == 1 || p[0] != '0') {
            Some(v as u8)
        } else {
            None
        },
        None => None,
    }
}

/// Four octets with dots between them.
pub open spec fn parse_v4(s: Seq<char>) -> Option<Ipv4Addr> {
    let ps = crate::text::split(s, '.');
    if ps.len() != 4 {
        None
    } else {
        match (octet_value(ps[0]), octet_value(ps[1]), octet_value(ps[2]), octet_value(ps[3])) {
            (Some(a), Some(b), Some(c), Some(d)) => Some(Ipv4Addr { a, b, c, d }),
            _ => None,
        }
    }
}

pub open spec fn parse_port(s: Seq<char>) -> Option<u16> {
    match crate::text::parse_decimal(s) {
        Some(v) => if v <= 0xffff {
            Some(v as u16)
        } else {
            None
        },
        None => None,
    }
}

/// The groups that colon-separated pieces denote: one to four hexadecimal
/// digits each; where `dotted` is allowed, the last piece may be an IPv4
/// address, which stands for two groups.
pub open spec fn group_values(ps: Seq<Seq<char>>, dotted: bool) -> Option<Seq<u16>>
    decreases ps.len(),
{
    if ps.len() == 0 {
        Some(Seq::empty())
    } else {
        match group_values(ps.drop_last(), false) {
            None => None,
            Some(front) => match crate::text::parse_hex(ps.last(), 4) {
                Some(v) => Some(front.push(v as u16)),
                None => if dotted {
                    match parse_v4(ps.last()) {
                        Some(ip) => Some(
                            front.push((ip.a as int * 256 + ip.b as int) as u16).push(
                                (ip.c as int * 256 + ip.d as int) as u16,
                            ),
                        ),
                        None => None,
                    }
                } else {
                    None
                },
            },
        }
    }
}

/// Colon-separated pieces; empty text has none.
pub open spec fn colon_pieces(s: Seq<char>) -> Seq<Seq<char>> {
    if s.len() == 0 {
        Seq::empty()
    } else {
        crate::text::split(s, ':')
    }
}

/// The eight groups that `s` denotes: all of them spelled out, or at least
/// one left out at a single `::`.
pub open spec fn parse_v6_groups(s: Seq<char>) -> Option<Seq<u16>> {
    match crate::text::find_from(s, 0, seq![':', ':']) {
        Some(k) => {
            match (
                group_values(colon_pieces(s.take(k)), false),
                group_values(colon_pieces(s.skip(k + 2)), true),
            ) {
                (Some(head), Some(tail)) => if head.len() + tail.len() <= 7 {
                    Some(head + zero_groups((8 - head.len() - tail.len()) as nat) + tail)
                } else {
                    None
                },
                _ => None,
            }
        },
        None => match group_values(colon_pieces(s), true) {
            Some(g) => if g.len() == 8 {
                Some(g)
            } else {
                None
            },
            None => None,
        },
    }
}

pub open spec fn zero_groups(n: nat) -> Seq<u16> {
    Seq::new(n, |i: int| 0u16)
}

pub open spec fn v6_of(g: Seq<u16>) -> Ipv6Addr {
    Ipv6Addr { g0: g[0], g1: g[1], g2: g[2], g3: g[3], g4: g[4], g5: g[5], g6: g[6], g7: g[7] }
}

/// `address` or `address%scope`, the scope a 32-bit decimal number.
pub open spec fn parse_scoped(s: Seq<char>) -> Option<(Ipv6Addr, u32)> {
    let ps = crate::text::split(s, '%');
    match parse_v6_groups(ps[0]) {
        None => None,
        Some(g) => if ps.len() == 1 {
            Some((v6_of(g), 0))
        } else if ps.len() == 2 {
            match crate::text::parse_decimal(ps[1]) {
                Some(v) => if v <= 0xffff_ffff {
                    Some((v6_of(g), v as u32))
                } else {
                    None
                },
                None => None,
            }
        } else {
            None
        },
    }
}

/// The address that `s` is the text of.
pub open spec fn parse_socket(s: Seq<char>) -> Option<SocketAddr> {
    if s.len() > 0 && s[0] == '[' {
        let k = crate::text::index_of_from(s, 1, ']');
        if k + 1 < s.len() && s[k + 1] == ':' {
            match (parse_scoped(s.subrange(1, k)), parse_port(s.skip(k + 2))) {
                (Some((ip, scope_id)), Some(port)) => Some(SocketAddr::V6 { ip, port, scope_id }),
                _ => None,
            }
        } else {
            None
        }
    } else {
        let k = crate::text::index_of_from(s, 0, ':');
        if k < s.len() {
            match (parse_v4(s.take(k)), parse_port(s.skip(k + 1))) {
                (Some(ip), Some(port)) => Some(SocketAddr::V4 { ip, port }),
                _ => None,
            }
        } else {
            None
        }
    }
}

// ---------------------------------------------------------------------------
// Laws
// ---------------------------------------------------------------------------

/// The text of an octet reads back as that octet.
pub proof fn lemma_octet_round_trip(v: u8)
    ensures
        octet_value(crate::text::decimal(v as nat)) == Some(v),
{
    crate::text::lemma_decimal_round_trip(v as nat);
    crate::text::lemma_decimal_len(v as nat);
}

/// The text of an IPv4 address reads back as that address.
pub proof fn lemma_v4_round_trip(ip: Ipv4Addr)
    ensures
        parse_v4(v4_text(ip)) == Some(ip),
{
    let a = crate::text::decimal(ip.a as nat);
    let b = crate::text::decimal(ip.b as nat);
    let c = crate::text::decimal(ip.c as nat);
    let d = crate::text::decimal(ip.d as nat);
    crate::text::lemma_decimal_has_no(ip.a as nat, '.');
    crate::text::lemma_decimal_has_no(ip.b as nat, '.');
    crate::text::lemma_decimal_has_no(ip.c as nat, '.');
    crate::text::lemma_decimal_has_no(ip.d as nat, '.');
    let r2 = c + seq!['.'] + d;
    let r1 = b + seq!['.'] + r2;
    crate::text::lemma_split_first(a, '.', r1);
    crate::text::lemma_split_first(b, '.', r2);
    crate::text::lemma_split_first(c, '.', d);
    crate::text::lemma_split_one(d, '.');
    assert(crate::text::split(v4_text(ip), '.') =~= seq![a, b, c, d]);
    lemma_octet_round_trip(ip.a);
    lemma_octet_round_trip(ip.b);
    lemma_octet_round_trip(ip.c);
    lemma_octet_round_trip(ip.d);
}

/// Dotted text holds digits and dots only.
pub proof fn lemma_v4_text_chars(ip: Ipv4Addr)
    ensures
        v4_text(ip).len() > 0,
        forall|i: int| 0 <= i < v4_text(ip).len() ==> crate::text::is_decimal_digit(
            #[trigger] v4_text(ip)[i],
        ) || v4_text(ip)[i] == '.',
{
    let a = crate::text::decimal(ip.a as nat);
    let b = crate::text::decimal(ip.b as nat);
    let c = crate::text::decimal(ip.c as nat);
    let d = crate::text::decimal(ip.d as nat);
    crate::text::lemma_decimal_round_trip(ip.a as nat);
    crate::text::lemma_decimal_round_trip(ip.b as nat);
    crate::text::lemma_decimal_round_trip(ip.c as nat);
    crate::text::lemma_decimal_round_trip(ip.d as nat);
    let r2 = c + seq!['.'] + d;
    let r1 = b + seq!['.'] + r2;
    assert forall|i: int| 0 <= i < r2.len() implies crate::text::is_decimal_digit(#[trigger] r2[i])
        || r2[i] == '.' by {
        if i < c.len() {
            assert(r2[i] == c[i]);
        } else if i > c.len() {
            assert(r2[i] == d[i - c.len() - 1]);
        }
    }
    assert forall|i: int| 0 <= i < r1.len() implies crate::text::is_decimal_digit(#[trigger] r1[i])
        || r1[i] == '.' by {
        if i < b.len() {
            assert(r1[i] == b[i]);
        } else if i > b.len() {
            assert(r1[i] == r2[i - b.len() - 1]);
        }
    }
    let s = a + seq!['.'] + r1;
    assert forall|i: int| 0 <= i < s.len() implies crate::text::is_decimal_digit(#[trigger] s[i])
        || s[i] == '.' by {
        if i < a.len() {
            assert(s[i] == a[i]);
        } else if i > a.len() {
            assert(s[i] == r1[i - a.len() - 1]);
        }
    }
}

/// The text of an IPv4 address with a port reads back as what it was made of.
pub proof fn lemma_v4_socket_round_trip(ip: Ipv4Addr, port: u16)
    ensures
        parse_socket(socket_text(SocketAddr::V4 { ip, port })) == Some(
            SocketAddr::V4 { ip, port },
        ),
{
    let t = v4_text(ip);
    let p = crate::text::decimal(port as nat);
    let s = t + seq![':'] + p;
    lemma_v4_text_chars(ip);
    lemma_v4_round_trip(ip);
    crate::text::lemma_decimal_round_trip(port as nat);
    assert(s[0] == t[0]);
    crate::text::lemma_index_of_from(s, 0, ':');
    let k = crate::text::index_of_from(s, 0, ':');
    assert(s[t.len() as int] == ':');
    if k < t.len() {
        assert(s[k] == t[k]);
    }
    assert(s.take(k) =~= t);
    assert(s.skip(k + 1) =~= p);
}

/// A character of an IPv6 address's text.
pub open spec fn is_v6_char(c: char) -> bool {
    '0' <= c <= '9' || 'a' <= c <= 'f' || c == ':' || c == '.'
}

pub open spec fn hex_pieces(g: Seq<u16>) -> Seq<Seq<char>> {
    g.map_values(|v: u16| crate::text::hex(v as nat))
}

/// No two colons stand next to each other.
pub open spec fn no_pair(s: Seq<char>) -> bool {
    forall|i: int, j: int|
        0 <= i && j == i + 1 && j < s.len() ==> !(#[trigger] s[i] == ':' && #[trigger] s[j] == ':')
}

/// Groups come apart again at the colons, none of which stands next to
/// another or at an end.
proof fn lemma_groups_text(g: Seq<u16>)
    requires
        g.len() > 0,
    ensures
        groups_text(g).len() > 0,
        groups_text(g)[0] != ':',
        groups_text(g).last() != ':',
        forall|i: int| 0 <= i < groups_text(g).len() ==> is_v6_char(#[trigger] groups_text(g)[i]),
        no_pair(groups_text(g)),
        crate::text::split(groups_text(g), ':') == hex_pieces(g),
    decreases g.len(),
{
    let t = groups_text(g);
    let last = crate::text::hex(g.last() as nat);
    crate::text::lemma_hex_round_trip(g.last() as nat);
    if g.len() == 1 {
        crate::text::lemma_split_one(t, ':');
        assert(hex_pieces(g) =~= seq![t]);
    } else {
        let front = groups_text(g.drop_last());
        lemma_groups_text(g.drop_last());
        crate::text::lemma_split_last(front, ':', last);
        assert(hex_pieces(g) =~= hex_pieces(g.drop_last()).push(last));
        assert(t =~= front + seq![':'] + last);
        assert forall|i: int| 0 <= i < t.len() implies is_v6_char(#[trigger] t[i]) by {
            if i < front.len() {
                assert(t[i] == front[i]);
            } else if i > front.len() {
                assert(t[i] == last[i - front.len() - 1]);
            }
        }
        assert forall|i: int, j: int| 0 <= i && j == i + 1 && j < t.len() implies !(#[trigger] t[i]
            == ':' && #[trigger] t[j] == ':') by {
            if i + 1 < front.len() {
                assert(t[i] == front[i] && t[i + 1] == front[i + 1]);
            } else if i < front.len() {
                assert(t[i] == front.last());
            } else if i == front.len() {
                assert(t[i + 1] == last[0]);
            } else {
                assert(t[i] == last[i - front.len() - 1]);
            }
        }
        assert(t[0] == front[0]);
        assert(t.last() == last.last());
    }
}

/// The pieces of groups stand for the groups.
proof fn lemma_group_values(g: Seq<u16>, dotted: bool)
    ensures
        group_values(hex_pieces(g), dotted) == Some(g),
    decreases g.len(),
{
    let ps = hex_pieces(g);
    if g.len() == 0 {
        assert(g =~= Seq::empty());
    } else {
        lemma_group_values(g.drop_last(), false);
        assert(ps.drop_last() =~= hex_pieces(g.drop_last()));
        let v = g.last() as nat;
        assert(ps.last() == crate::text::hex(v));
        crate::text::lemma_hex_round_trip(v);
        crate::text::lemma_hex_len(v);
        assert(g.drop_last().push(g.last()) =~= g);
    }
}

/// Groups as text stand for the groups; no groups are no text.
proof fn lemma_groups_read_back(g: Seq<u16>, dotted: bool)
    ensures
        group_values(colon_pieces(groups_text(g)), dotted) == Some(g),
{
    lemma_group_values(g, dotted);
    if g.len() == 0 {
        assert(hex_pieces(g) =~= Seq::empty());
    } else {
        lemma_groups_text(g);
    }
}

proof fn lemma_zeros_at(g: Seq<u16>, i: int)
    requires
        0 <= i <= g.len(),
    ensures
        0 <= zeros_at(g, i),
        i + zeros_at(g, i) <= g.len(),
        forall|j: int| i <= j < i + zeros_at(g, i) ==> #[trigger] g[j] == 0,
    decreases g.len() - i,
{
    if i < g.len() && g[i] == 0 {
        lemma_zeros_at(g, i + 1);
    }
}

proof fn lemma_longest_zeros(g: Seq<u16>, n: int)
    requires
        n <= g.len(),
    ensures
        0 <= longest_zeros(g, n),
        n >= 1 ==> longest_zeros(g, n) < n,
    decreases n,
{
    if n > 1 {
        lemma_longest_zeros(g, n - 1);
    }
}

/// The run of zero groups that a text leaves out is a longest one, and the
/// first of those.
pub proof fn lemma_longest_is_longest(g: Seq<u16>, n: int, i: int)
    requires
        0 <= i < n <= g.len(),
    ensures
        zeros_at(g, i) <= zeros_at(g, longest_zeros(g, n)),
        i < longest_zeros(g, n) ==> zeros_at(g, i) < zeros_at(g, longest_zeros(g, n)),
    decreases n,
{
    if n > 1 {
        if i < n - 1 {
            lemma_longest_is_longest(g, n - 1, i);
        }
        lemma_longest_zeros(g, n - 1);
    }
}

/// A dotted address is four octets with dots between them and no others: none
/// is empty, none above 255, none has a zero in front.
pub proof fn lemma_parse_v4_canonical(s: Seq<char>)
    requires
        parse_v4(s) is Some,
    ensures
        ({
            let ip = parse_v4(s)->0;
            let ps = crate::text::split(s, '.');
            &&& ps.len() == 4
            &&& ps[0] == crate::text::decimal(ip.a as nat)
            &&& ps[1] == crate::text::decimal(ip.b as nat)
            &&& ps[2] == crate::text::decimal(ip.c as nat)
            &&& ps[3] == crate::text::decimal(ip.d as nat)
        }),
{
    let ps = crate::text::split(s, '.');
    crate::text::lemma_decimal_canonical(ps[0]);
    crate::text::lemma_decimal_canonical(ps[1]);
    crate::text::lemma_decimal_canonical(ps[2]);
    crate::text::lemma_decimal_canonical(ps[3]);
}

proof fn lemma_pair_at(s: Seq<char>, k: int)
    ensures
        crate::text::matches_at(s, k, seq![':', ':']) <==> 0 <= k && k + 2 <= s.len() && s[k] == ':'
            && s[k + 1] == ':',
{
    let pair = seq![':', ':'];
    if 0 <= k && k + 2 <= s.len() {
        let sub = s.subrange(k, k + 2);
        assert(sub[0] == s[k] && sub[1] == s[k + 1]);
        if s[k] == ':' && s[k + 1] == ':' {
            assert(sub =~= pair);
        }
    }
}

/// Where two colons stand between texts that neither hold nor touch another
/// such pair, they are found.
proof fn lemma_find_gap(head: Seq<char>, tail: Seq<char>)
    requires
        head.len() > 0 ==> head.last() != ':',
        no_pair(head),
    ensures
        crate::text::find_from(head + seq![':', ':'] + tail, 0, seq![':', ':']) == Some(
            head.len() as int,
        ),
{
    let s = head + seq![':', ':'] + tail;
    let pair = seq![':', ':'];
    let n = head.len() as int;
    assert(s[n] == ':' && s[n + 1] == ':');
    lemma_pair_at(s, n);
    assert forall|j: int| 0 <= j < n implies !#[trigger] crate::text::matches_at(s, j, pair) by {
        lemma_pair_at(s, j);
        assert(s[j] == head[j]);
        if j + 1 < n {
            assert(s[j + 1] == head[j + 1]);
        }
    }
    crate::text::lemma_find_is(s, 0, pair, n);
}

/// Text without two colons in a row has no gap.
proof fn lemma_no_gap(s: Seq<char>)
    requires
        no_pair(s),
    ensures
        crate::text::find_from(s, 0, seq![':', ':']) is None,
{
    crate::text::lemma_find_from(s, 0, seq![':', ':']);
    if let Some(k) = crate::text::find_from(s, 0, seq![':', ':']) {
        lemma_pair_at(s, k);
    }
}

/// The text of an IPv6 address reads back as its groups, and holds nothing
/// but digits, colons and dots.
pub proof fn lemma_v6_round_trip(ip: Ipv6Addr)
    ensures
        parse_v6_groups(v6_text(ip)) == Some(ip.groups()),
        v6_of(ip.groups()) == ip,
        forall|i: int| 0 <= i < v6_text(ip).len() ==> is_v6_char(#[trigger] v6_text(ip)[i]),
{
    let g = ip.groups();
    let z = longest_zeros(g, 8);
    let n = zeros_at(g, z);
    let t = v6_text(ip);
    if g.take(5) == seq![0u16, 0, 0, 0, 0] && g[5] == 0xffff {
        lemma_v6_mapped(ip);
    } else if n > 1 {
        lemma_longest_zeros(g, 8);
        lemma_zeros_at(g, z);
        let head = groups_text(g.take(z));
        let tail = groups_text(g.skip(z + n));
        lemma_groups_read_back(g.take(z), false);
        lemma_groups_read_back(g.skip(z + n), true);
        if z > 0 {
            lemma_groups_text(g.take(z));
        }
        if z + n < 8 {
            lemma_groups_text(g.skip(z + n));
        }
        reveal_strlit("::");
        assert("::"@ =~= seq![':', ':']);
        lemma_find_gap(head, tail);
        assert(t.take(head.len() as int) =~= head);
        assert(t.skip(head.len() as int + 2) =~= tail);
        assert(g.take(z) + zero_groups((8 - z - (8 - z - n)) as nat) + g.skip(z + n) =~= g);
        assert forall|i: int| 0 <= i < t.len() implies is_v6_char(#[trigger] t[i]) by {
            if i < head.len() {
                assert(t[i] == head[i]);
            } else if i >= head.len() + 2 {
                assert(t[i] == tail[i - head.len() - 2]);
            }
        }
    } else {
        lemma_groups_text(g);
        lemma_groups_read_back(g, true);
        lemma_no_gap(t);
    }
}

/// The gap of a text stands for as many zero groups as are missing, and for
/// at least one: nothing is left out of eight groups.
pub proof fn lemma_gap_stands_for_groups(head: Seq<u16>, tail: Seq<u16>)
    ensures
        parse_v6_groups(groups_text(head) + "::"@ + groups_text(tail)) == if head.len() + tail.len()
            < 8 {
            Some(head + zero_groups((8 - head.len() - tail.len()) as nat) + tail)
        } else {
            None
        },
{
    let h = groups_text(head);
    let t = groups_text(tail);
    let s = h + "::"@ + t;
    reveal_strlit("::");
    assert("::"@ =~= seq![':', ':']);
    lemma_groups_read_back(head, false);
    lemma_groups_read_back(tail, true);
    if head.len() > 0 {
        lemma_groups_text(head);
    } else {
        assert(no_pair(h));
    }
    lemma_find_gap(h, t);
    assert(s.take(h.len() as int) =~= h);
    assert(s.skip(h.len() as int + 2) =~= t);
}

/// Groups without a gap are an address only where they are eight.
pub proof fn lemma_eight_groups(g: Seq<u16>)
    requires
        g.len() > 0,
    ensures
        parse_v6_groups(groups_text(g)) == if g.len() == 8 {
            Some(g)
        } else {
            None
        },
{
    lemma_groups_text(g);
    lemma_groups_read_back(g, true);
    lemma_no_gap(groups_text(g));
}

/// A port is a decimal number below 65536.
pub proof fn lemma_port_range(n: nat)
    ensures
        parse_port(crate::text::decimal(n)) == if n < 65536 {
            Some(n as u16)
        } else {
            None
        },
{
    crate::text::lemma_decimal_round_trip(n);
}

/// An octet is a decimal number below 256.
pub proof fn lemma_octet_range(n: nat)
    ensures
        octet_value(crate::text::decimal(n)) == if n < 256 {
            Some(n as u8)
        } else {
            None
        },
{
    crate::text::lemma_decimal_round_trip(n);
    if n < 256 {
        crate::text::lemma_decimal_len(n);
    }
}

proof fn lemma_v6_mapped(ip: Ipv6Addr)
    requires
        ip.groups().take(5) == seq![0u16, 0, 0, 0, 0],
        ip.groups()[5] == 0xffff,
    ensures
        parse_v6_groups(v6_text(ip)) == Some(ip.groups()),
        forall|i: int| 0 <= i < v6_text(ip).len() ==> is_v6_char(#[trigger] v6_text(ip)[i]),
{
    let g = ip.groups();
    let t = v6_text(ip);
    let d = mapped_v4(ip);
    let v4 = v4_text(d);
    reveal_strlit("::ffff:");
    let ffff = seq!['f', 'f', 'f', 'f'];
    let empty = Seq::<char>::empty();
    let tail = ffff + seq![':'] + v4;
    assert(t =~= empty + seq![':', ':'] + tail);
    lemma_find_gap(empty, tail);
    assert(t.take(0) =~= empty);
    assert(t.skip(2) =~= tail);
    lemma_v4_text_chars(d);
    lemma_v4_round_trip(d);
    crate::text::lemma_split_one(ffff, ':');
    crate::text::lemma_split_last(ffff, ':', v4);
    let ps = crate::text::split(tail, ':');
    assert(ps =~= seq![ffff, v4]);
    assert(ps.drop_last() =~= seq![ffff]);
    assert(seq![ffff].drop_last() =~= Seq::empty());
    assert(crate::text::parse_hex(ffff, 4) == Some(0xffffnat)) by {
        reveal_with_fuel(crate::text::hex_value, 5);
        assert(ffff.drop_last() =~= seq!['f', 'f', 'f']);
        assert(seq!['f', 'f', 'f'].drop_last() =~= seq!['f', 'f']);
        assert(seq!['f', 'f'].drop_last() =~= seq!['f']);
        assert(seq!['f'].drop_last() =~= empty);
    }
    assert(crate::text::parse_hex(v4, 4) is None) by {
        lemma_v4_has_dot(d);
    }
    assert(group_values(seq![ffff], false) == Some(seq![0xffffu16])) by {
        assert(Seq::<u16>::empty().push(0xffff) =~= seq![0xffffu16]);
    }
    let back = seq![0xffffu16].push((d.a as int * 256 + d.b as int) as u16).push(
        (d.c as int * 256 + d.d as int) as u16,
    );
    assert(group_values(ps, true) == Some(back));
    assert(g[0] == g.take(5)[0] && g[1] == g.take(5)[1] && g[2] == g.take(5)[2]);
    assert(g[3] == g.take(5)[3] && g[4] == g.take(5)[4]);
    assert(Seq::<u16>::empty() + zero_groups(5) + back =~= g);
    assert forall|i: int| 0 <= i < t.len() implies is_v6_char(#[trigger] t[i]) by {
        if i >= 7 {
            assert(t[i] == v4[i - 7]);
        }
    }
}

proof fn lemma_v4_has_dot(ip: Ipv4Addr)
    ensures
        !crate::text::all_hex(v4_text(ip)),
{
    let a = crate::text::decimal(ip.a as nat);
    assert(v4_text(ip)[a.len() as int] == '.');
}

/// The scope of an address, as text.
pub open spec fn scope_text(scope_id: u32) -> Seq<char> {
    if scope_id == 0 {
        Seq::empty()
    } else {
        seq!['%'] + crate::text::decimal(scope_id as nat)
    }
}

/// An address with its scope reads back, and holds no bracket.
#[verifier::spinoff_prover]
proof fn lemma_scoped_round_trip(ip: Ipv6Addr, scope_id: u32)
    ensures
        parse_scoped(v6_text(ip) + scope_text(scope_id)) == Some((ip, scope_id)),
        forall|i: int|
            0 <= i < (v6_text(ip) + scope_text(scope_id)).len() ==> #[trigger] (v6_text(ip)
                + scope_text(scope_id))[i] != ']',
{
    let t = v6_text(ip);
    let dec = crate::text::decimal(scope_id as nat);
    let inner = t + scope_text(scope_id);
    lemma_v6_round_trip(ip);
    assert forall|i: int| 0 <= i < t.len() implies #[trigger] t[i] != '%' by {
        assert(is_v6_char(t[i]));
    }
    crate::text::lemma_split_one(t, '%');
    crate::text::lemma_decimal_round_trip(scope_id as nat);
    if scope_id == 0 {
        assert(inner =~= t);
    } else {
        crate::text::lemma_decimal_has_no(scope_id as nat, '%');
        crate::text::lemma_split_last(t, '%', dec);
        assert(inner =~= t + seq!['%'] + dec);
        assert(crate::text::split(inner, '%') =~= seq![t, dec]);
    }
    assert forall|i: int| 0 <= i < inner.len() implies #[trigger] inner[i] != ']' by {
        if i < t.len() {
            assert(inner[i] == t[i]);
            assert(is_v6_char(t[i]));
        } else if i > t.len() {
            assert(inner[i] == dec[i - 1 - t.len()]);
        }
    }
}

/// What stands between brackets, and what follows them, is found again.
#[verifier::spinoff_prover]
proof fn lemma_bracketed(inner: Seq<char>, p: Seq<char>)
    requires
        forall|i: int| 0 <= i < inner.len() ==> #[trigger] inner[i] != ']',
    ensures
        ({
            let s = seq!['['] + inner + seq![']', ':'] + p;
            let k = crate::text::index_of_from(s, 1, ']');
            &&& k == inner.len() + 1
            &&& s.len() > 0 && s[0] == '['
            &&& k + 1 < s.len() && s[k + 1] == ':'
            &&& s.subrange(1, k) == inner
            &&& s.skip(k + 2) == p
        }),
{
    let s = seq!['['] + inner + seq![']', ':'] + p;
    let end = inner.len() as int + 1;
    crate::text::lemma_index_of_from(s, 1, ']');
    assert(s[end] == ']');
    assert forall|i: int| 1 <= i < end implies s[i] != ']' by {
        assert(s[i] == inner[i - 1]);
    }
    let k = crate::text::index_of_from(s, 1, ']');
    assert(k == end);
    assert(s.subrange(1, k) =~= inner);
    assert(s.skip(k + 2) =~= p);
}

/// The text of any address with a port reads back as what it was made of.
#[verifier::spinoff_prover]
pub proof fn lemma_socket_round_trip(addr: SocketAddr)
    ensures
        parse_socket(socket_text(addr)) == Some(addr),
{
    match addr {
        SocketAddr::V4 { ip, port } => {
            lemma_v4_socket_round_trip(ip, port);
        },
        SocketAddr::V6 { ip, port, scope_id } => {
            let inner = v6_text(ip) + scope_text(scope_id);
            let p = crate::text::decimal(port as nat);
            lemma_scoped_round_trip(ip, scope_id);
            lemma_bracketed(inner, p);
            crate::text::lemma_decimal_round_trip(port as nat);
            reveal_strlit("]:");
            assert("]:"@ =~= seq![']', ':']);
            let s = socket_text(addr);
            assert(s =~= seq!['['] + inner + seq![']', ':'] + p);
        },
    }
}

// ---------------------------------------------------------------------------
// Operations
// ---------------------------------------------------------------------------

impl Ipv4Addr {
    pub fn new(a: u8, b: u8, c: u8, d: u8) -> (r: Self)
        ensures
            r == (Ipv4Addr { a, b, c, d }),
    {
        Ipv4Addr { a, b, c, d }
    }

    /// `127.0.0.0/8`.
    pub open spec fn loopback(self) -> bool {
        self.a == 127
    }

    /// `10.0.0.0/8`, `172.16.0.0/12` or `192.168.0.0/16`.
    pub open spec fn private(self) -> bool {
        ||| self.a == 10
        ||| self.a == 172 && 16 <= self.b <= 31
        ||| self.a == 192 && self.b == 168
    }

    /// `169.254.0.0/16`.
    pub open spec fn link_local(self) -> bool {
        self.a == 169 && self.b == 254
    }

    /// `100.64.0.0/10`, shared by carriers.
    pub open spec fn carrier_shared(self) -> bool {
        self.a == 100 && 64 <= self.b <= 127
    }

    pub open spec fn unspecified(self) -> bool {
        self == (Ipv4Addr { a: 0, b: 0, c: 0, d: 0 })
    }

    pub fn is_loopback(&self) -> (r: bool)
        ensures
            r == self.loopback(),
    {
        self.a == 127
    }

    pub fn is_private(&self) -> (r: bool)
        ensures
            r == self.private(),
    {
        self.a == 10 || (self.a == 172 && 16 <= self.b && self.b <= 31) || (self.a == 192 && self.b
            == 168)
    }

    pub fn is_link_local(&self) -> (r: bool)
        ensures
            r == self.link_local(),
    {
        self.a == 169 && self.b == 254
    }

    pub fn is_unspecified(&self) -> (r: bool)
        ensures
            r == self.unspecified(),
    {
        self.a == 0 && self.b == 0 && self.c == 0 && self.d == 0
    }

    pub fn push_text(&self, out: &mut String)
        ensures
            final(out)@ == old(out)@ + v4_text(*self),
    {
        push_decimal(out, self.a as u64);
        out.push('.');
        push_decimal(out, self.b as u64);
        out.push('.');
        push_decimal(out, self.c as u64);
        out.push('.');
        push_decimal(out, self.d as u64);
        assert(out@ =~= old(out)@ + v4_text(*self));
    }

    /// The dotted text of the address.
    pub fn text(&self) -> (r: String)
        ensures
            r@ == v4_text(*self),
    {
        let mut out = String::new();
        self.push_text(&mut out);
        assert(out@ =~= v4_text(*self));
        out
    }

    /// Reads a dotted address.
    pub fn parse(s: &str) -> (r: Option<Ipv4Addr>)
        ensures
            r == parse_v4(s@),
    {
        parse_v4_exec(chars_of(s).as_slice())
    }
}

impl Ipv6Addr {
    pub open spec fn groups(self) -> Seq<u16> {
        seq![self.g0, self.g1, self.g2, self.g3, self.g4, self.g5, self.g6, self.g7]
    }

    pub open spec fn loopback(self) -> bool {
        self.groups() == seq![0u16, 0, 0, 0, 0, 0, 0, 1]
    }

    pub open spec fn unspecified(self) -> bool {
        self.groups() == seq![0u16, 0, 0, 0, 0, 0, 0, 0]
    }

    /// `fe80::/10`.
    pub open spec fn link_local(self) -> bool {
        0xfe80 <= self.g0 <= 0xfebf
    }

    pub fn is_loopback(&self) -> (r: bool)
        ensures
            r == self.loopback(),
    {
        let r = self.g0 == 0 && self.g1 == 0 && self.g2 == 0 && self.g3 == 0 && self.g4 == 0
            && self.g5 == 0 && self.g6 == 0 && self.g7 == 1;
        proof {
            let g = self.groups();
            if r {
                assert(g =~= seq![0u16, 0, 0, 0, 0, 0, 0, 1]);
            }
            assert(g[0] == self.g0 && g[1] == self.g1 && g[2] == self.g2 && g[3] == self.g3);
            assert(g[4] == self.g4 && g[5] == self.g5 && g[6] == self.g6 && g[7] == self.g7);
        }
        r
    }

    pub fn is_unspecified(&self) -> (r: bool)
        ensures
            r == self.unspecified(),
    {
        let r = self.g0 == 0 && self.g1 == 0 && self.g2 == 0 && self.g3 == 0 && self.g4 == 0
            && self.g5 == 0 && self.g6 == 0 && self.g7 == 0;
        proof {
            let g = self.groups();
            if r {
                assert(g =~= seq![0u16, 0, 0, 0, 0, 0, 0, 0]);
            }
            assert(g[0] == self.g0 && g[1] == self.g1 && g[2] == self.g2 && g[3] == self.g3);
            assert(g[4] == self.g4 && g[5] == self.g5 && g[6] == self.g6 && g[7] == self.g7);
        }
        r
    }

    pub fn groups_vec(&self) -> (r: Vec<u16>)
        ensures
            r@ == self.groups(),
    {
        let r: Vec<u16> = vec![
            self.g0,
            self.g1,
            self.g2,
            self.g3,
            self.g4,
            self.g5,
            self.g6,
            self.g7,
        ];
        assert(r@ =~= self.groups());
        r
    }

    pub fn push_text(&self, out: &mut String)
        ensures
            final(out)@ == old(out)@ + v6_text(*self),
    {
        let ghost start = out@;
        let g = self.groups_vec();
        let mapped = self.g0 == 0 && self.g1 == 0 && self.g2 == 0 && self.g3 == 0 && self.g4 == 0
            && self.g5 == 0xffff;
        proof {
            let five = self.groups().take(5);
            assert(five[0] == self.g0 && five[1] == self.g1 && five[2] == self.g2 && five[3]
                == self.g3 && five[4] == self.g4);
            if mapped {
                assert(five =~= seq![0u16, 0, 0, 0, 0]);
            }
        }
        if mapped {
            out.append("::ffff:");
            let ip = Ipv4Addr {
                a: (self.g6 / 256) as u8,
                b: (self.g6 % 256) as u8,
                c: (self.g7 / 256) as u8,
                d: (self.g7 % 256) as u8,
            };
            ip.push_text(out);
            assert(out@ =~= start + v6_text(*self));
            return ;
        }
        let mut best: usize = 0;
        let mut best_len: usize = zeros_at_exec(&g, 0);
        let mut i: usize = 1;
        while i < 8
            invariant
                1 <= i <= 8,
                g@ == self.groups(),
                best < 8,
                best == longest_zeros(g@, i as int),
                best_len == zeros_at(g@, best as int),
                best + best_len <= 8,
            decreases 8 - i,
        {
            let n: usize = zeros_at_exec(&g, i);
            if n > best_len {
                best = i;
                best_len = n;
            }
            i += 1;
        }
        if best_len > 1 {
            push_groups(out, &g, 0, best);
            out.append("::");
            push_groups(out, &g, best + best_len, 8);
            assert(g@.subrange(0, best as int) =~= g@.take(best as int));
            assert(g@.subrange(best + best_len, 8) =~= g@.skip(best + best_len));
            assert(out@ =~= start + v6_text(*self));
        } else {
            push_groups(out, &g, 0, 8);
            assert(g@.subrange(0, 8) =~= g@);
        }
    }
}

fn zeros_at_exec(g: &Vec<u16>, i: usize) -> (r: usize)
    requires
        i <= g@.len(),
    ensures
        r == zeros_at(g@, i as int),
        i + r <= g@.len(),
    decreases g@.len() - i,
{
    if i >= g.len() || g[i] != 0 {
        0
    } else {
        1 + zeros_at_exec(g, i + 1)
    }
}

fn push_groups(out: &mut String, g: &Vec<u16>, from: usize, to: usize)
    requires
        from <= to <= g@.len(),
    ensures
        final(out)@ == old(out)@ + groups_text(g@.subrange(from as int, to as int)),
    decreases to - from,
{
    let ghost all = g@.subrange(from as int, to as int);
    if from == to {
        assert(out@ =~= old(out)@ + groups_text(all));
    } else if from + 1 == to {
        push_hex(out, g[from] as u64);
    } else {
        push_groups(out, g, from, to - 1);
        out.push(':');
        push_hex(out, g[to - 1] as u64);
        assert(all.drop_last() =~= g@.subrange(from as int, to - 1));
        assert(out@ =~= old(out)@ + groups_text(all));
    }
}

impl IpAddr {
    pub fn push_text(&self, out: &mut String)
        ensures
            final(out)@ == old(out)@ + ip_text(*self),
    {
        match self {
            IpAddr::V4(ip) => ip.push_text(out),
            IpAddr::V6(ip) => ip.push_text(out),
        }
    }

    pub fn text(&self) -> (r: String)
        ensures
            r@ == ip_text(*self),
    {
        let mut out = String::new();
        self.push_text(&mut out);
        assert(out@ =~= ip_text(*self));
        out
    }
}

impl SocketAddr {
    pub open spec fn spec_ip(self) -> IpAddr {
        match self {
            SocketAddr::V4 { ip, .. } => IpAddr::V4(ip),
            SocketAddr::V6 { ip, .. } => IpAddr::V6(ip),
        }
    }

    pub open spec fn spec_port(self) -> u16 {
        match self {
            SocketAddr::V4 { port, .. } => port,
            SocketAddr::V6 { port, .. } => port,
        }
    }

    pub fn new(ip: IpAddr, port: u16) -> (r: Self)
        ensures
            r == match ip {
                IpAddr::V4(ip) => SocketAddr::V4 { ip, port },
                IpAddr::V6(ip) => SocketAddr::V6 { ip, port, scope_id: 0 },
            },
    {
        match ip {
            IpAddr::V4(ip) => SocketAddr::V4 { ip, port },
            IpAddr::V6(ip) => SocketAddr::V6 { ip, port, scope_id: 0 },
        }
    }

    pub fn ip(&self) -> (r: IpAddr)
        ensures
            r == self.spec_ip(),
    {
        match self {
            SocketAddr::V4 { ip, .. } => IpAddr::V4(*ip),
            SocketAddr::V6 { ip, .. } => IpAddr::V6(*ip),
        }
    }

    pub fn port(&self) -> (r: u16)
        ensures
            r == self.spec_port(),
    {
        match self {
            SocketAddr::V4 { port, .. } => *port,
            SocketAddr::V6 { port, .. } => *port,
        }
    }

    pub fn is_ipv6(&self) -> (r: bool)
        ensures
            r == (self is V6),
    {
        match self {
            SocketAddr::V4 { .. } => false,
            SocketAddr::V6 { .. } => true,
        }
    }

    pub fn push_text(&self, out: &mut String)
        ensures
            final(out)@ == old(out)@ + socket_text(*self),
    {
        let ghost start = out@;
        match self {
            SocketAddr::V4 { ip, port } => {
                ip.push_text(out);
                out.push(':');
                push_decimal(out, *port as u64);
            },
            SocketAddr::V6 { ip, port, scope_id } => {
                out.push('[');
                ip.push_text(out);
                if *scope_id != 0 {
                    out.push('%');
                    push_decimal(out, *scope_id as u64);
                }
                out.append("]:");
                push_decimal(out, *port as u64);
            },
        }
        assert(out@ =~= start + socket_text(*self));
    }

    /// The text of the address, as [`SocketAddr::parse`] reads it.
    pub fn text(&self) -> (r: String)
        ensures
            r@ == socket_text(*self),
    {
        let mut out = String::new();
        self.push_text(&mut out);
        assert(out@ =~= socket_text(*self));
        out
    }

    /// Reads an address with a port.
    pub fn parse(s: &str) -> (r: Option<SocketAddr>)
        ensures
            r == parse_socket(s@),
    {
        let cs = chars_of(s);
        parse_socket_exec(cs.as_slice())
    }
}

fn octet_value_exec(p: &Vec<char>) -> (r: Option<u8>)
    ensures
        r == octet_value(p@),
{
    match parse_decimal_exec(p.as_slice(), 255) {
        Some(v) => if p.len() <= 3 && (p.len() == 1 || p[0] != '0') {
            Some(v as u8)
        } else {
            None
        },
        None => None,
    }
}

pub fn parse_v4_exec(s: &[char]) -> (r: Option<Ipv4Addr>)
    ensures
        r == parse_v4(s@),
{
    let ps = split_exec(s, '.');
    let ghost view = crate::text::pieces_view(ps@);
    assert(view.len() == ps@.len());
    if ps.len() != 4 {
        return None;
    }
    assert(view[0] == ps@[0]@ && view[1] == ps@[1]@ && view[2] == ps@[2]@ && view[3] == ps@[3]@);
    match (
        octet_value_exec(&ps[0]),
        octet_value_exec(&ps[1]),
        octet_value_exec(&ps[2]),
        octet_value_exec(&ps[3]),
    ) {
        (Some(a), Some(b), Some(c), Some(d)) => Some(Ipv4Addr { a, b, c, d }),
        _ => None,
    }
}

pub fn parse_port_exec(s: &[char]) -> (r: Option<u16>)
    ensures
        r == parse_port(s@),
{
    match parse_decimal_exec(s, 0xffff) {
        Some(v) => Some(v as u16),
        None => None,
    }
}

fn group_values_exec(ps: &Vec<Vec<char>>, n: usize, dotted: bool) -> (r: Option<Vec<u16>>)
    requires
        n <= ps@.len(),
    ensures
        match r {
            Some(g) => group_values(crate::text::pieces_view(ps@).take(n as int), dotted) == Some(
                g@,
            ),
            None => group_values(crate::text::pieces_view(ps@).take(n as int), dotted) is None,
        },
    decreases n,
{
    let ghost view = crate::text::pieces_view(ps@).take(n as int);
    if n == 0 {
        let g: Vec<u16> = Vec::new();
        assert(g@ =~= Seq::empty());
        return Some(g);
    }
    assert(view.drop_last() =~= crate::text::pieces_view(ps@).take(n - 1));
    assert(view.last() == ps@[n - 1]@);
    match group_values_exec(ps, n - 1, false) {
        None => None,
        Some(front) => {
            let mut g = front;
            match parse_hex_exec(ps[n - 1].as_slice(), 4) {
                Some(v) => {
                    g.push(v as u16);
                    Some(g)
                },
                None => {
                    if !dotted {
                        return None;
                    }
                    match parse_v4_exec(ps[n - 1].as_slice()) {
                        Some(ip) => {
                            g.push(ip.a as u16 * 256 + ip.b as u16);
                            g.push(ip.c as u16 * 256 + ip.d as u16);
                            Some(g)
                        },
                        None => None,
                    }
                },
            }
        },
    }
}

fn parse_groups(s: &[char], dotted: bool) -> (r: Option<Vec<u16>>)
    ensures
        match r {
            Some(g) => group_values(colon_pieces(s@), dotted) == Some(g@),
            None => group_values(colon_pieces(s@), dotted) is None,
        },
{
    if s.len() == 0 {
        let g: Vec<u16> = Vec::new();
        assert(g@ =~= Seq::empty());
        return Some(g);
    }
    let ps = split_exec(s, ':');
    let n: usize = ps.len();
    let r = group_values_exec(&ps, n, dotted);
    assert(crate::text::pieces_view(ps@).take(n as int) =~= crate::text::split(s@, ':'));
    r
}

fn parse_v6_groups_exec(s: &[char]) -> (r: Option<Vec<u16>>)
    ensures
        match r {
            Some(g) => parse_v6_groups(s@) == Some(g@) && g@.len() == 8,
            None => parse_v6_groups(s@) is None,
        },
{
    let colons: Vec<char> = vec![':', ':'];
    assert(colons@ =~= seq![':', ':']);
    match crate::text::find_from_exec(s, 0, colons.as_slice()) {
        Some(k) => {
            let left = copy_range(s, 0, k);
            let right = copy_range(s, k + 2, s.len());
            assert(left@ =~= s@.take(k as int));
            assert(right@ =~= s@.skip(k + 2));
            match (parse_groups(left.as_slice(), false), parse_groups(right.as_slice(), true)) {
                (Some(head), Some(tail)) => {
                    if head.len() > 7 || tail.len() > 7 || head.len() + tail.len() > 7 {
                        return None;
                    }
                    let n: usize = 8 - head.len() - tail.len();
                    let mut g = head;
                    let ghost front = g@;
                    let mut i: usize = 0;
                    while i < n
                        invariant
                            i <= n,
                            g@ == front + zero_groups(i as nat),
                        decreases n - i,
                    {
                        g.push(0);
                        i += 1;
                        assert(g@ =~= front + zero_groups(i as nat));
                    }
                    let mut j: usize = 0;
                    while j < tail.len()
                        invariant
                            j <= tail@.len(),
                            g@ == front + zero_groups(n as nat) + tail@.take(j as int),
                        decreases tail.len() - j,
                    {
                        g.push(tail[j]);
                        j += 1;
                        assert(g@ =~= front + zero_groups(n as nat) + tail@.take(j as int));
                    }
                    assert(tail@.take(j as int) =~= tail@);
                    Some(g)
                },
                _ => None,
            }
        },
        None => match parse_groups(s, true) {
            Some(g) => if g.len() == 8 {
                Some(g)
            } else {
                None
            },
            None => None,
        },
    }
}

fn parse_scoped_exec(s: &[char]) -> (r: Option<(Ipv6Addr, u32)>)
    ensures
        r == parse_scoped(s@),
{
    let ps = split_exec(s, '%');
    let ghost view = crate::text::pieces_view(ps@);
    assert(view.len() == ps@.len());
    assert(view[0] == ps@[0]@);
    match parse_v6_groups_exec(ps[0].as_slice()) {
        None => None,
        Some(g) => {
            let ip = Ipv6Addr {
                g0: g[0],
                g1: g[1],
                g2: g[2],
                g3: g[3],
                g4: g[4],
                g5: g[5],
                g6: g[6],
                g7: g[7],
            };
            if ps.len() == 1 {
                Some((ip, 0))
            } else if ps.len() == 2 {
                assert(view[1] == ps@[1]@);
                match parse_decimal_exec(ps[1].as_slice(), 0xffff_ffff) {
                    Some(v) => Some((ip, v as u32)),
                    None => None,
                }
            } else {
                None
            }
        },
    }
}

pub fn parse_socket_exec(s: &[char]) -> (r: Option<SocketAddr>)
    ensures
        r == parse_socket(s@),
{
    if s.len() > 0 && s[0] == '[' {
        let k: usize = index_of_from_exec(s, 1, ']');
        if k < s.len() && k + 1 < s.len() && s[k + 1] == ':' {
            let inner = copy_range(s, 1, k);
            let port_text = copy_range(s, k + 2, s.len());
            assert(port_text@ =~= s@.skip(k + 2));
            match (parse_scoped_exec(inner.as_slice()), parse_port_exec(port_text.as_slice())) {
                (Some((ip, scope_id)), Some(port)) => Some(SocketAddr::V6 { ip, port, scope_id }),
                _ => None,
            }
        } else {
            None
        }
    } else {
        let k: usize = index_of_from_exec(s, 0, ':');
        if k < s.len() {
            let host = copy_range(s, 0, k);
            let port_text = copy_range(s, k + 1, s.len());
            assert(host@ =~= s@.take(k as int));
            assert(port_text@ =~= s@.skip(k + 1));
            match (parse_v4_exec(host.as_slice()), parse_port_exec(port_text.as_slice())) {
                (Some(ip), Some(port)) => Some(SocketAddr::V4 { ip, port }),
                _ => None,
            }
        } else {
            None
        }
    }
}

} // verus!
