//! What the benchmarks work on, and what they count.
use vstd::prelude::*;

use crate::call::repairs_view;

verus! {

/// Samples in a 20 ms frame at 48 kHz mono.
pub const FRAME_SAMPLES: usize = 960;

/// Frames through the codec.
pub const CODEC_FRAMES: usize = 1000;

/// Blocks through FEC, and the frames in each.
pub const FEC_BLOCKS: usize = 100;

pub const FRAMES_PER_BLOCK: usize = 5;

/// Bytes in a simulated frame.
pub const SYMBOL_BYTES: usize = 80;

/// Packets of each size through the cipher.
pub const PACKETS_PER_SIZE: usize = 10_000;

/// Frames through the whole pipeline.
pub const PIPELINE_FRAMES: usize = 200;

/// Bytes of PCM in some frames.
pub fn pcm_bytes(frames: usize) -> (r: usize)
    requires
        frames * 1920 <= usize::MAX,
    ensures
        r == frames * 1920,
{
    frames * (FRAME_SAMPLES * 2)
}

// ---------------------------------------------------------------------------
// FEC
// ---------------------------------------------------------------------------

/// A symbol of an FEC block.
#[derive(Clone, Debug)]
pub struct BenchSymbol {
    pub index: u8,
    pub is_repair: bool,
    pub data: Vec<u8>,
}

#[verifier::ext_equal]
pub struct SymbolView {
    pub index: u8,
    pub is_repair: bool,
    pub data: Seq<u8>,
}

impl View for BenchSymbol {
    type V = SymbolView;

    open spec fn view(&self) -> SymbolView {
        SymbolView { index: self.index, is_repair: self.is_repair, data: self.data@ }
    }
}

pub open spec fn symbols_view(v: Seq<BenchSymbol>) -> Seq<SymbolView> {
    v.map_values(|s: BenchSymbol| s@)
}

/// The simulated frame at a place of a block: one byte, repeated.
pub open spec fn frame_data(block: int, i: int) -> Seq<u8> {
    Seq::new(80, |k: int| ((block * 5 + i) % 256) as u8)
}

/// The symbols of a block: its frames, then the repair symbols.
pub open spec fn block_symbols(block: int, repairs: Seq<(u8, Seq<u8>)>) -> Seq<SymbolView> {
    Seq::new(
        5,
        |i: int| SymbolView { index: i as u8, is_repair: false, data: frame_data(block, i) },
    ) + Seq::new(
        repairs.len(),
        |i: int| SymbolView { index: repairs[i].0, is_repair: true, data: repairs[i].1 },
    )
}

/// The simulated frame at a place of a block.
pub fn source_frame(block: usize, i: usize) -> (r: Vec<u8>)
    requires
        block < 100,
        i < 5,
    ensures
        r@ == frame_data(block as int, i as int),
{
    let value: u8 = ((block * FRAMES_PER_BLOCK + i) % 256) as u8;
    let r: Vec<u8> = vec![value; SYMBOL_BYTES];
    assert(r@ =~= frame_data(block as int, i as int));
    r
}

/// All symbols of a block.
pub fn all_symbols(block: usize, repairs: Vec<(u8, Vec<u8>)>) -> (r: Vec<BenchSymbol>)
    requires
        block < 100,
    ensures
        symbols_view(r@) == block_symbols(block as int, repairs_view(repairs@)),
{
    let ghost all = block_symbols(block as int, repairs_view(repairs@));
    let mut r: Vec<BenchSymbol> = Vec::new();
    let mut i: usize = 0;
    assert(symbols_view(r@) =~= all.take(0));
    while i < FRAMES_PER_BLOCK
        invariant
            i <= 5,
            block < 100,
            all == block_symbols(block as int, repairs_view(repairs@)),
            symbols_view(r@) == all.take(i as int),
        decreases 5 - i,
    {
        let ghost before = symbols_view(r@);
        r.push(BenchSymbol { index: i as u8, is_repair: false, data: source_frame(block, i) });
        i += 1;
        proof {
            assert(symbols_view(r@) =~= before.push(all[i - 1]));
            assert(symbols_view(r@) =~= all.take(i as int));
        }
    }
    let mut rest = repairs;
    let ghost mut done: int = 0;
    while rest.len() > 0
        invariant
            0 <= done <= repairs@.len(),
            rest@.len() == repairs@.len() - done,
            all == block_symbols(block as int, repairs_view(repairs@)),
            forall|k: int| 0 <= k < rest@.len() ==> #[trigger] rest@[k] == repairs@[done + k],
            symbols_view(r@) == all.take(5 + done),
        decreases rest.len(),
    {
        let ghost rest_before = rest@;
        let ghost before = symbols_view(r@);
        let (index, data) = rest.remove(0);
        let symbol = BenchSymbol { index, is_repair: true, data };
        proof {
            assert((index, data) == rest_before[0]);
            assert(rest_before[0] == repairs@[done + 0]);
            assert(repairs_view(repairs@)[done] == (index, data@));
            assert(symbol@ == all[5 + done]);
            assert forall|k: int| 0 <= k < rest@.len() implies #[trigger] rest@[k] == repairs@[done
                + 1 + k] by {
                assert(rest@[k] == rest_before[k + 1]);
            }
        }
        r.push(symbol);
        proof {
            assert(symbols_view(r@) =~= before.push(all[5 + done]));
            assert(symbols_view(r@) =~= all.take(5 + done + 1));
            done = done + 1;
        }
    }
    assert(all.take(5 + done) =~= all);
    r
}

/// The generator that symbols are dropped by: a linear congruential one.
pub open spec fn lcg(seed: u64) -> u64 {
    ((seed * 6364136223846793005 + 1442695040888963407) % 0x1_0000_0000_0000_0000) as u64
}

/// Its state before the symbols of a block are dropped.
pub open spec fn first_seed(block: int) -> u64 {
    ((block * 6364136223846793005 + 1) % 0x1_0000_0000_0000_0000) as u64
}

/// `s` with two elements exchanged.
pub open spec fn swapped(s: Seq<usize>, i: int, j: int) -> Seq<usize> {
    s.update(i, s[j]).update(j, s[i])
}

/// `s` after the places from `i` down have each been exchanged with one that
/// the generator picks among those up to it.
pub open spec fn shuffled(s: Seq<usize>, seed: u64, i: int) -> Seq<usize>
    decreases i,
{
    if i < 1 {
        s
    } else {
        let next = lcg(seed);
        let j = (next / 0x2_0000_0000) as int % (i + 1);
        shuffled(swapped(s, i, j), next, i - 1)
    }
}

/// The numbers below `n`, in order.
pub open spec fn in_order(n: int) -> Seq<usize> {
    Seq::new(n as nat, |i: int| i as usize)
}

/// Each number below `n` occurs exactly once.
pub open spec fn is_permutation(s: Seq<usize>, n: int) -> bool {
    &&& s.len() == n
    &&& forall|i: int| 0 <= i < n ==> #[trigger] s[i] < n
    &&& forall|i: int, j: int| 0 <= i < j < n ==> s[i] != s[j]
}

/// The order in which the symbols of a block are taken.
pub fn shuffled_indices(block: usize, n: usize) -> (r: Vec<usize>)
    ensures
        r@ == shuffled(in_order(n as int), first_seed(block as int), n - 1),
        is_permutation(r@, n as int),
{
    let mut indices: Vec<usize> = Vec::new();
    let mut k: usize = 0;
    while k < n
        invariant
            k <= n,
            indices@ == in_order(k as int),
        decreases n - k,
    {
        indices.push(k);
        k += 1;
        assert(indices@ =~= in_order(k as int));
    }
    let mut seed: u64 = (block as u64).wrapping_mul(6364136223846793005).wrapping_add(1);
    assert(seed == first_seed(block as int)) by {
        vstd::arithmetic::div_mod::lemma_add_mod_noop(
            block * 6364136223846793005,
            1,
            0x1_0000_0000_0000_0000,
        );
    }
    if n == 0 {
        return indices;
    }
    let mut i: usize = n - 1;
    while i > 0
        invariant
            i < n,
            indices@.len() == n,
            is_permutation(indices@, n as int),
            shuffled(indices@, seed, i as int) == shuffled(
                in_order(n as int),
                first_seed(block as int),
                n - 1,
            ),
        decreases i,
    {
        let ghost before = indices@;
        let next: u64 = seed.wrapping_mul(6364136223846793005).wrapping_add(1442695040888963407);
        assert(next == lcg(seed)) by {
            vstd::arithmetic::div_mod::lemma_add_mod_noop(
                seed * 6364136223846793005,
                1442695040888963407,
                0x1_0000_0000_0000_0000,
            );
        }
        let j: usize = (next / 0x2_0000_0000) as usize % (i + 1);
        seed = next;
        let a: usize = indices[i];
        let b: usize = indices[j];
        indices.set(i, b);
        indices.set(j, a);
        proof {
            assert(indices@ =~= swapped(before, i as int, j as int));
        }
        i -= 1;
    }
    indices
}

/// However a block is shuffled, each of its symbols stays in it once.
pub proof fn lemma_shuffle_permutes(s: Seq<usize>, n: int, seed: u64, i: int)
    requires
        is_permutation(s, n),
        i < n,
    ensures
        is_permutation(shuffled(s, seed, i), n),
    decreases i,
{
    if i >= 1 {
        let next = lcg(seed);
        let j = (next / 0x2_0000_0000) as int % (i + 1);
        assert(0 <= j <= i);
        lemma_shuffle_permutes(swapped(s, i, j), n, next, i - 1);
    }
}

/// The symbols of a block that arrive, when so many are lost.
pub fn kept_indices(block: usize, n: usize, drop_count: usize) -> (r: Vec<usize>)
    requires
        drop_count <= n,
    ensures
        r@ == shuffled(in_order(n as int), first_seed(block as int), n - 1).skip(
            drop_count as int,
        ),
        r@.len() == n - drop_count,
{
    let mut all = shuffled_indices(block, n);
    let kept = all.split_off(drop_count);
    assert(kept@ =~= shuffled(in_order(n as int), first_seed(block as int), n - 1).skip(
        drop_count as int,
    ));
    kept
}

/// Bytes in the symbols of one kind.
pub open spec fn bytes_in(symbols: Seq<SymbolView>, is_repair: bool) -> nat
    decreases symbols.len(),
{
    if symbols.len() == 0 {
        0
    } else {
        bytes_in(symbols.drop_last(), is_repair) + if symbols.last().is_repair == is_repair {
            symbols.last().data.len()
        } else {
            0
        }
    }
}

/// What FEC has done so far.
#[derive(Clone, Copy, Debug, PartialEq, Eq, Structural)]
pub struct FecResult {
    pub blocks_attempted: usize,
    pub blocks_recovered: usize,
    pub total_source_bytes: usize,
    pub total_repair_bytes: usize,
}

impl FecResult {
    pub fn new() -> (r: Self)
        ensures
            r == (FecResult {
                blocks_attempted: 0,
                blocks_recovered: 0,
                total_source_bytes: 0,
                total_repair_bytes: 0,
            }),
    {
        FecResult {
            blocks_attempted: 0,
            blocks_recovered: 0,
            total_source_bytes: 0,
            total_repair_bytes: 0,
        }
    }

    /// Counts a block.
    pub fn add_block(&mut self, symbols: &[BenchSymbol], recovered: bool)
        requires
            old(self).blocks_recovered <= old(self).blocks_attempted < usize::MAX,
            old(self).total_source_bytes + bytes_in(symbols_view(symbols@), false) <= usize::MAX,
            old(self).total_repair_bytes + bytes_in(symbols_view(symbols@), true) <= usize::MAX,
        ensures
            final(self).blocks_recovered <= final(self).blocks_attempted,
            *final(self) == (FecResult {
                blocks_attempted: (old(self).blocks_attempted + 1) as usize,
                blocks_recovered: (old(self).blocks_recovered + if recovered {
                    1int
                } else {
                    0
                }) as usize,
                total_source_bytes: (old(self).total_source_bytes + bytes_in(
                    symbols_view(symbols@),
                    false,
                )) as usize,
                total_repair_bytes: (old(self).total_repair_bytes + bytes_in(
                    symbols_view(symbols@),
                    true,
                )) as usize,
            }),
    {
        let ghost all = symbols_view(symbols@);
        let mut i: usize = 0;
        assert(all.take(0) =~= Seq::empty());
        while i < symbols.len()
            invariant
                i <= symbols@.len(),
                all == symbols_view(symbols@),
                old(self).total_source_bytes + bytes_in(all, false) <= usize::MAX,
                old(self).total_repair_bytes + bytes_in(all, true) <= usize::MAX,
                self.total_source_bytes == old(self).total_source_bytes + bytes_in(
                    all.take(i as int),
                    false,
                ),
                self.total_repair_bytes == old(self).total_repair_bytes + bytes_in(
                    all.take(i as int),
                    true,
                ),
                self.blocks_attempted == old(self).blocks_attempted,
                self.blocks_recovered == old(self).blocks_recovered,
            decreases symbols.len() - i,
        {
            proof {
                assert(all.take(i + 1).drop_last() =~= all.take(i as int));
                assert(all.take(i + 1).last() == symbols@[i as int]@);
                lemma_bytes_grow(all, false, i + 1);
                lemma_bytes_grow(all, true, i + 1);
            }
            let n: usize = symbols[i].data.len();
            if symbols[i].is_repair {
                self.total_repair_bytes = self.total_repair_bytes + n;
            } else {
                self.total_source_bytes = self.total_source_bytes + n;
            }
            i += 1;
        }
        assert(all.take(i as int) =~= all);
        self.blocks_attempted = self.blocks_attempted + 1;
        if recovered {
            self.blocks_recovered = self.blocks_recovered + 1;
        }
    }
}

proof fn lemma_bytes_grow(symbols: Seq<SymbolView>, is_repair: bool, n: int)
    requires
        0 <= n <= symbols.len(),
    ensures
        bytes_in(symbols.take(n), is_repair) <= bytes_in(symbols, is_repair),
    decreases symbols.len() - n,
{
    if n < symbols.len() {
        lemma_bytes_grow(symbols, is_repair, n + 1);
        assert(symbols.take(n + 1).drop_last() =~= symbols.take(n));
    } else {
        assert(symbols.take(n) =~= symbols);
    }
}

// ---------------------------------------------------------------------------
// Encryption
// ---------------------------------------------------------------------------

/// The size of the payloads in a third of the packets.
pub open spec fn payload_size(third: int) -> int {
    if third == 0 {
        60
    } else if third == 1 {
        120
    } else {
        256
    }
}

/// One payload: a byte, repeated.
pub open spec fn payload_data(k: int) -> Seq<u8> {
    Seq::new(
        payload_size(k / 10_000) as nat,
        |i: int| ((k % 10_000) % 256) as u8,
    )
}

/// The payload of packet `k`: so many of each size, of changing content.
pub fn bench_payload(k: usize) -> (r: Vec<u8>)
    requires
        k < 30_000,
    ensures
        r@ == payload_data(k as int),
{
    let third: usize = k / PACKETS_PER_SIZE;
    let size: usize = if third == 0 {
        60
    } else if third == 1 {
        120
    } else {
        256
    };
    let value: u8 = ((k % PACKETS_PER_SIZE) % 256) as u8;
    let r: Vec<u8> = vec![value; size];
    assert(r@ =~= payload_data(k as int));
    r
}

/// The number of packets.
pub fn total_packets() -> (r: usize)
    ensures
        r == 30_000,
{
    PACKETS_PER_SIZE * 3
}

} // verus!
