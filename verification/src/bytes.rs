//! Big- and little-endian integers in byte strings.
use vstd::prelude::*;

verus! {

pub open spec fn be16(hi: u8, lo: u8) -> u16 {
    (hi as int * 256 + lo as int) as u16
}

pub open spec fn be32(b0: u8, b1: u8, b2: u8, b3: u8) -> u32 {
    (b0 as int * 0x100_0000 + b1 as int * 0x1_0000 + b2 as int * 0x100 + b3 as int) as u32
}

/// The two bytes of `v`, the most significant first.
pub open spec fn be16_bytes(v: u16) -> Seq<u8> {
    seq![(v / 256) as u8, (v % 256) as u8]
}

/// The four bytes of `v`, the most significant first.
pub open spec fn be32_bytes(v: u32) -> Seq<u8> {
    seq![
        (v / 0x100_0000) as u8,
        ((v / 0x1_0000) % 256) as u8,
        ((v / 0x100) % 256) as u8,
        (v % 256) as u8,
    ]
}

pub proof fn lemma_be16(v: u16)
    ensures
        be16(be16_bytes(v)[0], be16_bytes(v)[1]) == v,
{
}

pub proof fn lemma_be32(v: u32)
    ensures
        ({
            let b = be32_bytes(v);
            be32(b[0], b[1], b[2], b[3]) == v
        }),
{
}

pub fn read_be16(b: &[u8], at: usize) -> (r: u16)
    requires
        at + 2 <= b@.len(),
    ensures
        r == be16(b@[at as int], b@[at + 1]),
{
    b[at] as u16 * 256 + b[at + 1] as u16
}

pub fn read_be32(b: &[u8], at: usize) -> (r: u32)
    requires
        at + 4 <= b@.len(),
    ensures
        r == be32(b@[at as int], b@[at + 1], b@[at + 2], b@[at + 3]),
{
    b[at] as u32 * 0x100_0000 + b[at + 1] as u32 * 0x1_0000 + b[at + 2] as u32 * 0x100 + b[at
        + 3] as u32
}

pub fn push_be16(out: &mut Vec<u8>, v: u16)
    ensures
        final(out)@ == old(out)@ + be16_bytes(v),
{
    out.push((v / 256) as u8);
    out.push((v % 256) as u8);
    assert(out@ =~= old(out)@ + be16_bytes(v));
}

pub fn push_be32(out: &mut Vec<u8>, v: u32)
    ensures
        final(out)@ == old(out)@ + be32_bytes(v),
{
    out.push((v / 0x100_0000) as u8);
    out.push(((v / 0x1_0000) % 256) as u8);
    out.push(((v / 0x100) % 256) as u8);
    out.push((v % 256) as u8);
    assert(out@ =~= old(out)@ + be32_bytes(v));
}

pub fn push_all(out: &mut Vec<u8>, b: &[u8])
    ensures
        final(out)@ == old(out)@ + b@,
{
    let ghost start = out@;
    let mut i: usize = 0;
    while i < b.len()
        invariant
            i <= b@.len(),
            out@ == start + b@.take(i as int),
        decreases b.len() - i,
    {
        out.push(b[i]);
        i += 1;
        assert(out@ =~= start + b@.take(i as int));
    }
    assert(b@.take(i as int) =~= b@);
}

pub fn push_zeros(out: &mut Vec<u8>, n: usize)
    ensures
        final(out)@ == old(out)@ + zeros(n as nat),
{
    let ghost start = out@;
    let mut i: usize = 0;
    while i < n
        invariant
            i <= n,
            out@ == start + zeros(i as nat),
        decreases n - i,
    {
        out.push(0);
        i += 1;
        assert(out@ =~= start + zeros(i as nat));
    }
}

pub open spec fn zeros(n: nat) -> Seq<u8> {
    Seq::new(n, |i: int| 0u8)
}

pub fn same_bytes(a: &[u8], b: &[u8]) -> (r: bool)
    ensures
        r == (a@ == b@),
{
    if a.len() != b.len() {
        return false;
    }
    let mut i: usize = 0;
    while i < a.len()
        invariant
            i <= a@.len(),
            a@.len() == b@.len(),
            forall|j: int| 0 <= j < i ==> a@[j] == #[trigger] b@[j],
        decreases a.len() - i,
    {
        if a[i] != b[i] {
            return false;
        }
        i += 1;
    }
    assert(a@ =~= b@);
    true
}

pub fn copy_bytes(b: &[u8], from: usize, to: usize) -> (r: Vec<u8>)
    requires
        from <= to <= b@.len(),
    ensures
        r@ == b@.subrange(from as int, to as int),
{
    let mut r: Vec<u8> = Vec::new();
    let mut i: usize = from;
    while i < to
        invariant
            from <= i <= to <= b@.len(),
            r@ == b@.subrange(from as int, i as int),
        decreases to - i,
    {
        r.push(b[i]);
        i += 1;
        assert(r@ =~= b@.subrange(from as int, i as int));
    }
    r
}

pub open spec fn le32(b0: u8, b1: u8, b2: u8, b3: u8) -> u32 {
    be32(b3, b2, b1, b0)
}

/// The four bytes of `v`, the least significant first.
pub open spec fn le32_bytes(v: u32) -> Seq<u8> {
    seq![
        (v % 256) as u8,
        ((v / 0x100) % 256) as u8,
        ((v / 0x1_0000) % 256) as u8,
        (v / 0x100_0000) as u8,
    ]
}

/// The number that the eight bytes of `b` from `at` on stand for, the least
/// significant first.
pub open spec fn le64(b: Seq<u8>, at: int) -> u64 {
    (le32(b[at], b[at + 1], b[at + 2], b[at + 3]) + le32(
        b[at + 4],
        b[at + 5],
        b[at + 6],
        b[at + 7],
    ) * 0x1_0000_0000) as u64
}

/// The eight bytes of `v`, the least significant first.
pub open spec fn le64_bytes(v: u64) -> Seq<u8> {
    le32_bytes((v % 0x1_0000_0000) as u32) + le32_bytes((v / 0x1_0000_0000) as u32)
}

pub proof fn lemma_le32(v: u32)
    ensures
        le32(le32_bytes(v)[0], le32_bytes(v)[1], le32_bytes(v)[2], le32_bytes(v)[3]) == v,
{
}

pub proof fn lemma_le64(v: u64)
    ensures
        le64(le64_bytes(v), 0) == v,
{
    let lo = (v % 0x1_0000_0000) as u32;
    let hi = (v / 0x1_0000_0000) as u32;
    lemma_le32(lo);
    lemma_le32(hi);
    let b = le64_bytes(v);
    assert(b[0] == le32_bytes(lo)[0] && b[1] == le32_bytes(lo)[1]);
    assert(b[2] == le32_bytes(lo)[2] && b[3] == le32_bytes(lo)[3]);
    assert(b[4] == le32_bytes(hi)[0] && b[5] == le32_bytes(hi)[1]);
    assert(b[6] == le32_bytes(hi)[2] && b[7] == le32_bytes(hi)[3]);
}

pub fn read_le32(b: &[u8], at: usize) -> (r: u32)
    requires
        at + 4 <= b@.len(),
    ensures
        r == le32(b@[at as int], b@[at + 1], b@[at + 2], b@[at + 3]),
{
    let b0: u8 = b[at];
    b[at + 3] as u32 * 0x100_0000 + b[at + 2] as u32 * 0x1_0000 + b[at + 1] as u32 * 0x100
        + b0 as u32
}

pub fn read_le64(b: &[u8], at: usize) -> (r: u64)
    requires
        at + 8 <= b@.len(),
    ensures
        r == le64(b@, at as int),
{
    assert(b.len() == b@.len());
    read_le32(b, at) as u64 + read_le32(b, at + 4) as u64 * 0x1_0000_0000
}

pub fn push_le32(out: &mut Vec<u8>, v: u32)
    ensures
        final(out)@ == old(out)@ + le32_bytes(v),
{
    out.push((v % 256) as u8);
    out.push(((v / 0x100) % 256) as u8);
    out.push(((v / 0x1_0000) % 256) as u8);
    out.push((v / 0x100_0000) as u8);
    assert(out@ =~= old(out)@ + le32_bytes(v));
}

pub fn push_le64(out: &mut Vec<u8>, v: u64)
    ensures
        final(out)@ == old(out)@ + le64_bytes(v),
{
    push_le32(out, (v % 0x1_0000_0000) as u32);
    push_le32(out, (v / 0x1_0000_0000) as u32);
    assert(out@ =~= old(out)@ + le64_bytes(v));
}

/// In network order the first byte counts most: each byte counts 256 times
/// what the next one does.
pub proof fn lemma_network_order(b0: u8, b1: u8, b2: u8, b3: u8, v: u16, w: u32)
    ensures
        be16(b0, b1) == 256 * b0 + b1,
        be32(b0, b1, b2, b3) == 256 * (256 * (256 * b0 + b1) + b2) + b3,
        v == 256 * be16_bytes(v)[0] + be16_bytes(v)[1],
        w == 256 * (256 * (256 * be32_bytes(w)[0] + be32_bytes(w)[1]) + be32_bytes(w)[2])
            + be32_bytes(w)[3],
{
}

/// In captures the first byte counts least.
pub proof fn lemma_little_endian_order(b0: u8, b1: u8, b2: u8, b3: u8, w: u32)
    ensures
        le32(b0, b1, b2, b3) == b0 + 256 * (b1 + 256 * (b2 + 256 * b3)),
        w == le32_bytes(w)[0] + 256 * (le32_bytes(w)[1] + 256 * (le32_bytes(w)[2] + 256
            * le32_bytes(w)[3])),
{
}

/// So the first four of eight bytes are those of the remainder by 2^32.
pub proof fn lemma_little_endian_halves(v: u64)
    ensures
        ({
            let b = le64_bytes(v);
            let low = b[0] + 256 * (b[1] + 256 * (b[2] + 256 * b[3]));
            let high = b[4] + 256 * (b[5] + 256 * (b[6] + 256 * b[7]));
            &&& b.len() == 8
            &&& v == low + 0x1_0000_0000 * high
        }),
{
    let lo = (v % 0x1_0000_0000) as u32;
    let hi = (v / 0x1_0000_0000) as u32;
    let b = le64_bytes(v);
    lemma_little_endian_order(0, 0, 0, 0, lo);
    lemma_little_endian_order(0, 0, 0, 0, hi);
    assert(b[0] == le32_bytes(lo)[0] && b[1] == le32_bytes(lo)[1]);
    assert(b[2] == le32_bytes(lo)[2] && b[3] == le32_bytes(lo)[3]);
    assert(b[4] == le32_bytes(hi)[0] && b[5] == le32_bytes(hi)[1]);
    assert(b[6] == le32_bytes(hi)[2] && b[7] == le32_bytes(hi)[3]);
}

} // verus!
