//! Content-defined chunking: where a stream of bytes is cut depends on the
//! bytes themselves, so that equal data gives equal chunks wherever it
//! stands.

use vstd::prelude::*;
use crate::path::spec_segments;

verus! {

/// Smallest chunk that the default parameters cut.
pub const MIN_SIZE: u32 = 2_048;

/// The chunk size that the default parameters aim at.
pub const AVG_SIZE: u32 = 8_192;

/// Largest chunk that the default parameters cut.
pub const MAX_SIZE: u32 = 65_536;

/// The parameters of the FastCDC algorithm.
///
/// A rolling hash runs over the bytes of a chunk from position `min_size`
/// on. The chunk ends where the bits of the hash that a mask picks are all
/// zero. Up to `avg_size` the mask picks two bits more than after it, so
/// that chunks gather around that size. A chunk ends at `max_size` at the
/// latest.
#[derive(Debug, Clone, Copy, PartialEq, Eq, Hash, Structural)]
pub struct FastCdc {
    /// No chunk but the last is shorter than this.
    pub min_size: u32,
    /// Up to this length a cut is harder to find than after it.
    pub avg_size: u32,
    /// No chunk is longer than this.
    pub max_size: u32,
}

/// Selects a chunking algorithm.
#[derive(Debug, Clone, Copy, PartialEq, Eq, Hash, Structural)]
pub enum ChunkerParams {
    FastCdc(FastCdc),
}

/// A chunking algorithm.
#[derive(Debug, Clone, Copy, PartialEq, Eq, Hash, Structural)]
pub enum Chunker {
    FastCdc(FastCdc),
}

/// Why no chunk could be read.
#[derive(Debug, Clone, Copy, PartialEq, Eq, Hash, Structural)]
pub enum ChunkError {
    /// The end of the next chunk cannot be told yet: more input, or the
    /// end of the input, has to come first.
    Incomplete,
    /// The source could not be read.
    Read,
}

/// One step of the mixing function from which the gear values are made.
pub open spec fn spec_mix(z: u64) -> u64 {
    let a = (z ^ (z >> 30)).wrapping_mul(0xBF58_476D_1CE4_E5B9);
    let b = (a ^ (a >> 27)).wrapping_mul(0x94D0_49BB_1331_11EB);
    b ^ (b >> 31)
}

/// The gear value of a byte: what the byte adds to the rolling hash.
pub open spec fn spec_gear(b: u8) -> u64 {
    spec_mix((((b as u64) + 1) as u64).wrapping_mul(0x9E37_79B9_7F4A_7C15))
}

/// The rolling hash over the bytes of `data` from position `from` up to,
/// not including, position `to`.
pub open spec fn spec_hash(data: Seq<u8>, from: int, to: int) -> u64
    decreases to - from,
{
    if to <= from {
        0
    } else {
        (spec_hash(data, from, to - 1) << 1).wrapping_add(spec_gear(data[to - 1]))
    }
}

/// The number of times that `n` can be halved before it is 1 or less.
pub open spec fn spec_bits(n: int) -> int
    decreases n,
{
    if n <= 1 {
        0
    } else {
        1 + spec_bits(n / 2)
    }
}

/// The mask that picks the `k` most significant bits.
pub open spec fn spec_mask(k: int) -> u64 {
    if k <= 0 {
        0
    } else if k >= 64 {
        u64::MAX
    } else {
        u64::MAX << ((64 - k) as u64)
    }
}

/// The gear value of a byte.
pub fn gear(b: u8) -> (r: u64)
    ensures
        r == spec_gear(b),
{
    let z: u64 = ((b as u64) + 1).wrapping_mul(0x9E37_79B9_7F4A_7C15);
    let a: u64 = (z ^ (z >> 30)).wrapping_mul(0xBF58_476D_1CE4_E5B9);
    let c: u64 = (a ^ (a >> 27)).wrapping_mul(0x94D0_49BB_1331_11EB);
    c ^ (c >> 31)
}

fn bits(n: u32) -> (r: u32)
    ensures
        r == spec_bits(n as int),
        r < 32,
{
    let mut v: u32 = n;
    let mut b: u32 = 0;
    while v > 1
        invariant
            spec_bits(n as int) == b + spec_bits(v as int),
            b < 32,
            (v as int) * spec_pow2(b as int) <= u32::MAX,
        decreases v,
    {
        proof {
            lemma_pow2_positive(b as int);
            assert(spec_pow2(b as int + 1) == 2 * spec_pow2(b as int));
            assert(((v / 2) as int) * (2 * spec_pow2(b as int)) <= (v as int) * spec_pow2(b as int))
                by (nonlinear_arith)
                requires
                    spec_pow2(b as int) >= 0,
                    v >= 0,
                    (v / 2) * 2 <= v,
            ;
            if b == 31 {
                assert(spec_pow2(31) == 2147483648) by {
                    lemma_pow2_values();
                }
                assert((v as int) * spec_pow2(31) >= 2 * 2147483648) by (nonlinear_arith)
                    requires
                        v >= 2,
                        spec_pow2(31) == 2147483648,
                ;
            }
        }
        v = v / 2;
        b = b + 1;
    }
    b
}

/// Two to the power `k`.
pub open spec fn spec_pow2(k: int) -> int
    decreases k,
{
    if k <= 0 {
        1
    } else {
        2 * spec_pow2(k - 1)
    }
}

proof fn lemma_pow2_positive(k: int)
    ensures
        spec_pow2(k) >= 1,
    decreases k,
{
    if k > 0 {
        lemma_pow2_positive(k - 1);
    }
}

proof fn lemma_pow2_values()
    ensures
        spec_pow2(31) == 2147483648,
{
    assert(spec_pow2(0) == 1);
    assert(spec_pow2(1) == 2);
    assert(spec_pow2(2) == 4);
    assert(spec_pow2(3) == 8);
    assert(spec_pow2(4) == 16);
    assert(spec_pow2(5) == 32);
    assert(spec_pow2(6) == 64);
    assert(spec_pow2(7) == 128);
    assert(spec_pow2(8) == 256);
    assert(spec_pow2(9) == 512);
    assert(spec_pow2(10) == 1024);
    assert(spec_pow2(11) == 2048);
    assert(spec_pow2(12) == 4096);
    assert(spec_pow2(13) == 8192);
    assert(spec_pow2(14) == 16384);
    assert(spec_pow2(15) == 32768);
    assert(spec_pow2(16) == 65536);
    assert(spec_pow2(17) == 131072);
    assert(spec_pow2(18) == 262144);
    assert(spec_pow2(19) == 524288);
    assert(spec_pow2(20) == 1048576);
    assert(spec_pow2(21) == 2097152);
    assert(spec_pow2(22) == 4194304);
    assert(spec_pow2(23) == 8388608);
    assert(spec_pow2(24) == 16777216);
    assert(spec_pow2(25) == 33554432);
    assert(spec_pow2(26) == 67108864);
    assert(spec_pow2(27) == 134217728);
    assert(spec_pow2(28) == 268435456);
    assert(spec_pow2(29) == 536870912);
    assert(spec_pow2(30) == 1073741824);
}

fn mask(k: u32) -> (r: u64)
    requires
        k < 64,
    ensures
        r == spec_mask(k as int),
{
    if k == 0 {
        0
    } else {
        u64::MAX << ((64 - k) as u64)
    }
}

impl Default for FastCdc {
    fn default() -> (r: Self)
        ensures
            r == FastCdc::spec_default(),
    {
        FastCdc { min_size: MIN_SIZE, avg_size: AVG_SIZE, max_size: MAX_SIZE }
    }
}

impl FastCdc {
    pub open spec fn spec_default() -> FastCdc {
        FastCdc { min_size: MIN_SIZE, avg_size: AVG_SIZE, max_size: MAX_SIZE }
    }

    /// The largest chunk: `max_size`, but 1 at least.
    pub open spec fn spec_max(self) -> int {
        if self.max_size == 0 {
            1
        } else {
            self.max_size as int
        }
    }

    /// The smallest chunk: `min_size`, but no more than the largest.
    pub open spec fn spec_min(self) -> int {
        if self.min_size <= self.spec_max() {
            self.min_size as int
        } else {
            self.spec_max()
        }
    }

    /// The length up to which the strict mask is used: `avg_size`, but
    /// between the smallest and the largest chunk.
    pub open spec fn spec_avg(self) -> int {
        if self.avg_size < self.spec_min() {
            self.spec_min()
        } else if self.avg_size > self.spec_max() {
            self.spec_max()
        } else {
            self.avg_size as int
        }
    }

    /// The mask for a chunk of length `n`: the strict one up to the average
    /// size, the loose one after it.
    pub open spec fn spec_mask_at(self, n: int) -> u64 {
        let bits = spec_bits(self.spec_avg());
        if n <= self.spec_avg() {
            spec_mask(bits + 1)
        } else {
            spec_mask(bits - 1)
        }
    }

    /// Whether the hash picks the length `n` as the end of the chunk that
    /// starts `data`.
    pub open spec fn spec_is_cut(self, data: Seq<u8>, n: int) -> bool {
        spec_hash(data, self.spec_min(), n) & self.spec_mask_at(n) == 0
    }

    /// The longest that the chunk at the start of `data` can be.
    pub open spec fn spec_limit(self, data: Seq<u8>) -> int {
        if data.len() < self.spec_max() {
            data.len() as int
        } else {
            self.spec_max()
        }
    }

    /// The first length from `n` on that the hash picks, or the limit.
    pub open spec fn spec_scan(self, data: Seq<u8>, n: int) -> int
        decreases self.spec_limit(data) - n,
    {
        if n >= self.spec_limit(data) {
            self.spec_limit(data)
        } else if self.spec_is_cut(data, n) {
            n
        } else {
            self.spec_scan(data, n + 1)
        }
    }

    /// The length of the chunk at the start of `data`: all of `data` where
    /// it is no longer than the smallest chunk; else the first length above
    /// the smallest chunk that the hash picks, and the limit at the latest.
    pub open spec fn spec_cut(self, data: Seq<u8>) -> int {
        if data.len() <= self.spec_min() {
            data.len() as int
        } else {
            self.spec_scan(data, self.spec_min() + 1)
        }
    }

    /// The chunks of `data`, in order.
    pub open spec fn spec_chunks(self, data: Seq<u8>) -> Seq<Seq<u8>>
        decreases data.len(),
    {
        if data.len() == 0 {
            Seq::empty()
        } else {
            let c = self.spec_cut(data);
            if 0 < c <= data.len() {
                seq![data.subrange(0, c)] + self.spec_chunks(data.skip(c))
            } else {
                seq![data]
            }
        }
    }

    fn max(&self) -> (r: usize)
        ensures
            r == self.spec_max(),
            r >= 1,
    {
        if self.max_size == 0 {
            1
        } else {
            self.max_size as usize
        }
    }

    fn min(&self) -> (r: usize)
        ensures
            r == self.spec_min(),
            r <= self.spec_max(),
    {
        let max = self.max();
        if self.min_size as usize <= max {
            self.min_size as usize
        } else {
            max
        }
    }

    fn avg(&self) -> (r: u32)
        ensures
            r == self.spec_avg(),
    {
        let min = self.min();
        let max = self.max();
        if (self.avg_size as usize) < min {
            min as u32
        } else if self.avg_size as usize > max {
            max as u32
        } else {
            self.avg_size
        }
    }

    /// The length of the chunk at the start of `data`.
    #[verifier::rlimit(50)]
    pub fn cut(&self, data: &[u8]) -> (r: usize)
        ensures
            r == self.spec_cut(data@),
            r <= data@.len(),
            data@.len() > 0 ==> r >= 1,
            r <= self.spec_max(),
    {
        let len = data.len();
        let min = self.min();
        let max = self.max();
        let avg = self.avg();
        if len <= min {
            return len;
        }
        let limit: usize = if len < max {
            len
        } else {
            max
        };
        let width = bits(avg);
        let strict = mask(width + 1);
        let loose = mask(if width >= 1 {
            width - 1
        } else {
            0
        });
        let mut hash: u64 = 0;
        let mut n: usize = min;
        proof {
            self.lemma_scan_bounds(data@, min as int + 1);
        }
        while n < limit
            invariant
                min <= n <= limit,
                limit == self.spec_limit(data@),
                limit <= data@.len(),
                min == self.spec_min(),
                avg == self.spec_avg(),
                strict == spec_mask(spec_bits(self.spec_avg()) + 1),
                loose == spec_mask(spec_bits(self.spec_avg()) - 1),
                hash == spec_hash(data@, min as int, n as int),
                self.spec_scan(data@, min + 1) == self.spec_scan(data@, n + 1),
            decreases limit - n,
        {
            hash = (hash << 1).wrapping_add(gear(data[n]));
            n = n + 1;
            let picked = if n <= avg as usize {
                strict
            } else {
                loose
            };
            if n < limit && hash & picked == 0 {
                return n;
            }
        }
        limit
    }

    /// The hash never picks a length beyond the limit, nor one below where
    /// the scan starts.
    pub proof fn lemma_scan_bounds(self, data: Seq<u8>, n: int)
        ensures
            self.spec_scan(data, n) <= self.spec_limit(data) || self.spec_scan(data, n) == n,
            n <= self.spec_limit(data) ==> n <= self.spec_scan(data, n) <= self.spec_limit(data),
            n > self.spec_limit(data) ==> self.spec_scan(data, n) == self.spec_limit(data),
        decreases self.spec_limit(data) - n,
    {
        if n < self.spec_limit(data) && !self.spec_is_cut(data, n) {
            self.lemma_scan_bounds(data, n + 1);
        }
    }

    /// A chunk of data that is not empty is not empty, and is no longer
    /// than the data or than the largest chunk.
    pub proof fn lemma_cut_bounds(self, data: Seq<u8>)
        ensures
            0 <= self.spec_cut(data) <= data.len(),
            self.spec_cut(data) <= self.spec_max(),
            data.len() > 0 ==> self.spec_cut(data) >= 1,
    {
        self.lemma_scan_bounds(data, self.spec_min() + 1);
    }

    /// All chunks of `data`.
    pub fn split(&self, data: &[u8]) -> (chunks: Vec<Vec<u8>>)
        ensures
            spec_segments(chunks@) == self.spec_chunks(data@),
            spec_concat(spec_segments(chunks@)) == data@,
    {
        let mut chunks: Vec<Vec<u8>> = Vec::new();
        let mut pos: usize = 0;
        proof {
            assert(data@.skip(0) =~= data@);
            assert(spec_segments(chunks@) =~= Seq::<Seq<u8>>::empty());
        }
        while pos < data.len()
            invariant
                pos <= data@.len(),
                self.spec_chunks(data@) == spec_segments(chunks@) + self.spec_chunks(
                    data@.skip(pos as int),
                ),
            decreases data@.len() - pos,
        {
            let rest = vstd::slice::slice_subrange(data, pos, data.len());
            assert(rest@ =~= data@.skip(pos as int));
            let c = self.cut(rest);
            let piece = vstd::slice::slice_subrange(rest, 0, c);
            let ghost before = spec_segments(chunks@);
            chunks.push(crate::process::compress::copy_bytes(piece));
            proof {
                assert(spec_segments(chunks@) =~= before.push(rest@.subrange(0, c as int)));
                assert(rest@.skip(c as int) =~= data@.skip(pos + c));
                assert(before + (seq![rest@.subrange(0, c as int)] + self.spec_chunks(
                    rest@.skip(c as int),
                )) =~= before.push(rest@.subrange(0, c as int)) + self.spec_chunks(
                    rest@.skip(c as int),
                ));
            }
            pos = pos + c;
        }
        proof {
            assert(data@.skip(pos as int) =~= Seq::<u8>::empty());
            assert(spec_segments(chunks@) + Seq::<Seq<u8>>::empty() =~= spec_segments(chunks@));
            self.lemma_chunks_concat(data@);
        }
        chunks
    }

    /// The chunks of data, one after the other, are the data.
    pub proof fn lemma_chunks_concat(self, data: Seq<u8>)
        ensures
            spec_concat(self.spec_chunks(data)) == data,
        decreases data.len(),
    {
        if data.len() == 0 {
            assert(spec_concat(Seq::<Seq<u8>>::empty()) =~= data);
        } else {
            let c = self.spec_cut(data);
            self.lemma_cut_bounds(data);
            let rest = self.spec_chunks(data.skip(c));
            self.lemma_chunks_concat(data.skip(c));
            let all = seq![data.subrange(0, c)] + rest;
            assert(all[0] == data.subrange(0, c));
            assert(all.skip(1) =~= rest);
            assert(spec_concat(all) == all[0] + spec_concat(all.skip(1)));
            assert(data.subrange(0, c) + data.skip(c) =~= data);
        }
    }

    /// The hash over a stretch of bytes is the same in every sequence that
    /// holds those bytes there.
    pub proof fn lemma_hash_prefix(b: Seq<u8>, p: Seq<u8>, from: int, to: int)
        requires
            spec_starts(b, p),
            0 <= from,
            to <= p.len(),
        ensures
            spec_hash(p, from, to) == spec_hash(b, from, to),
        decreases to - from,
    {
        if to > from {
            Self::lemma_hash_prefix(b, p, from, to - 1);
            assert(p[to - 1] == b.subrange(0, p.len() as int)[to - 1]);
        }
    }

    proof fn lemma_scan_prefix(self, b: Seq<u8>, p: Seq<u8>, n: int)
        requires
            spec_starts(b, p),
            self.spec_min() < n,
            self.spec_scan(b, n) <= p.len(),
            n <= self.spec_limit(p) || self.spec_scan(b, n) < n,
        ensures
            self.spec_scan(p, n) == self.spec_scan(b, n),
        decreases self.spec_limit(b) - n,
    {
        self.lemma_scan_bounds(b, n);
        self.lemma_scan_bounds(p, n);
        if n >= self.spec_limit(b) {
        } else {
            Self::lemma_hash_prefix(b, p, self.spec_min(), if n <= p.len() {
                n
            } else {
                0
            });
            if self.spec_is_cut(b, n) {
            } else {
                self.lemma_scan_bounds(b, n + 1);
                self.lemma_scan_prefix(b, p, n + 1);
            }
        }
    }

    /// Where a chunk ends depends on nothing that follows it: a beginning
    /// of the data that holds the first chunk whole has the same first
    /// chunk.
    pub proof fn lemma_cut_prefix(self, b: Seq<u8>, p: Seq<u8>)
        requires
            spec_starts(b, p),
            self.spec_cut(b) <= p.len(),
        ensures
            self.spec_cut(p) == self.spec_cut(b),
    {
        self.lemma_cut_bounds(b);
        if b.len() <= self.spec_min() {
            assert(p.len() == b.len());
        } else {
            self.lemma_scan_bounds(b, self.spec_min() + 1);
            self.lemma_scan_prefix(b, p, self.spec_min() + 1);
        }
    }

    /// The first `k` chunks of data, where they lie whole in a beginning
    /// of the data, are the first `k` chunks of that beginning.
    #[verifier::rlimit(50)]
    pub proof fn lemma_chunks_prefix(self, b: Seq<u8>, p: Seq<u8>, k: int)
        requires
            spec_starts(b, p),
            0 <= k <= self.spec_chunks(b).len(),
            spec_concat(self.spec_chunks(b).subrange(0, k)).len() <= p.len(),
        ensures
            self.spec_chunks(p).len() >= k,
            self.spec_chunks(p).subrange(0, k) == self.spec_chunks(b).subrange(0, k),
        decreases k,
    {
        let cb = self.spec_chunks(b);
        let cp = self.spec_chunks(p);
        if k == 0 {
            assert(cp.subrange(0, 0) =~= cb.subrange(0, 0));
        } else {
            assert(b.len() > 0);
            let c = self.spec_cut(b);
            self.lemma_cut_bounds(b);
            let first = b.subrange(0, c);
            let rest_b = self.spec_chunks(b.skip(c));
            assert(cb == seq![first] + rest_b);
            let head = cb.subrange(0, k);
            assert(head[0] == first);
            assert(head.skip(1) =~= rest_b.subrange(0, k - 1));
            assert(spec_concat(head) == head[0] + spec_concat(head.skip(1)));
            assert(c <= p.len());
            self.lemma_cut_prefix(b, p);
            self.lemma_cut_bounds(p);
            assert(p.len() > 0);
            let rest_p = self.spec_chunks(p.skip(c));
            assert(cp == seq![p.subrange(0, c)] + rest_p);
            assert(p.subrange(0, c) =~= first) by {
                assert forall|i: int| 0 <= i < c implies p[i] == b[i] by {
                    assert(p[i] == b.subrange(0, p.len() as int)[i]);
                }
            }
            assert(spec_starts(b.skip(c), p.skip(c))) by {
                assert(b.skip(c).subrange(0, p.skip(c).len() as int) =~= p.skip(c)) by {
                    assert forall|i: int| 0 <= i < p.len() - c implies b.skip(c)[i] == p.skip(
                        c,
                    )[i] by {
                        assert(p[i + c] == b.subrange(0, p.len() as int)[i + c]);
                    }
                }
            }
            self.lemma_chunks_prefix(b.skip(c), p.skip(c), k - 1);
            assert(cp.subrange(0, k) =~= cb.subrange(0, k)) by {
                assert forall|i: int| 0 <= i < k implies cp[i] == cb[i] by {
                    if i > 0 {
                        assert(rest_p.subrange(0, k - 1)[i - 1] == rest_b.subrange(0, k - 1)[i - 1]);
                    }
                }
            }
        }
    }
}

/// Whether `p` is the beginning of `b`.
pub open spec fn spec_starts(b: Seq<u8>, p: Seq<u8>) -> bool {
    p.len() <= b.len() && b.subrange(0, p.len() as int) == p
}

/// The chunks written one after the other.
pub open spec fn spec_concat(chunks: Seq<Seq<u8>>) -> Seq<u8>
    decreases chunks.len(),
{
    if chunks.len() == 0 {
        Seq::empty()
    } else {
        chunks[0] + spec_concat(chunks.skip(1))
    }
}

impl ChunkerParams {
    /// The algorithm that these parameters select.
    pub fn create(&self) -> (r: Chunker)
        ensures
            r == Chunker::FastCdc(self->0),
    {
        match self {
            ChunkerParams::FastCdc(inner) => Chunker::FastCdc(*inner),
        }
    }
}

impl Chunker {
    /// FastCDC with the default parameters.
    pub fn fastcdc_default() -> (r: Self)
        ensures
            r == Chunker::FastCdc(FastCdc::spec_default()),
    {
        Chunker::FastCdc(FastCdc::default())
    }

    /// The parameters of the algorithm.
    pub open spec fn spec_params(self) -> FastCdc {
        self->0
    }
}


/// Reads chunks from a source, one after the other.
///
/// Read with the same settings, a source gives the same chunks every time.
pub trait ChunkRead {
    /// The bytes of the source that have not been handed out yet.
    spec fn pending(&self) -> Seq<u8>;

    /// An empty buffer for [`ChunkRead::read_chunk`], with room for the
    /// largest chunk.
    fn prefered_buffer(&self) -> (r: Vec<u8>)
        ensures
            r@.len() == 0,
    ;

    /// Reads the next chunk into `buf`, in place of what `buf` held, and
    /// returns its length; 0 at the end of the source.
    fn read_chunk(&mut self, buf: &mut Vec<u8>) -> (r: Result<usize, ChunkError>)
        ensures
            r matches Ok(n) ==> n <= old(self).pending().len() && final(buf)@ == old(self).pending().subrange(0, n as int) && final(self).pending() == old(self).pending().skip(
                n as int,
            ) && (n == 0 ==> old(self).pending().len() == 0),
            r is Err ==> final(self).pending() == old(self).pending(),
    ;
}

/// Decides where a source is cut into chunks.
pub trait Algorithm {
    type ChunkRead: ChunkRead;

    /// A reader of the chunks of `data`.
    fn chunk(&self, data: Vec<u8>) -> (r: Self::ChunkRead)
        ensures
            r.pending() == data@,
    ;
}

/// Cuts a stream into chunks with [`FastCdc`], as the stream comes in: the
/// caller feeds the bytes in pieces of any size, and takes the chunks out.
/// The chunks do not depend on the size of the pieces.
#[derive(Debug)]
pub struct FastCdcChunker {
    params: FastCdc,
    buf: Vec<u8>,
    pos: usize,
    eof: bool,
}

impl FastCdcChunker {
    /// The bytes that have been fed and not been handed out in a chunk.
    pub closed spec fn remaining(&self) -> Seq<u8> {
        if self.pos <= self.buf@.len() {
            self.buf@.skip(self.pos as int)
        } else {
            Seq::empty()
        }
    }

    /// Whether the end of the stream has been declared.
    pub closed spec fn is_finished(&self) -> bool {
        self.eof
    }

    /// The parameters of the algorithm.
    pub closed spec fn spec_params(&self) -> FastCdc {
        self.params
    }

    /// Whether more bytes, or the end of the stream, must come before the
    /// end of the next chunk can be told: fewer than the largest chunk are
    /// there, and the stream may go on.
    pub open spec fn spec_wants_input(&self) -> bool {
        !self.is_finished() && self.remaining().len() < self.spec_params().spec_max()
    }

    /// A chunker at the start of a stream.
    pub fn new(params: FastCdc) -> (r: Self)
        ensures
            r.spec_params() == params,
            r.remaining() == Seq::<u8>::empty(),
            !r.is_finished(),
    {
        let r = Self { params, buf: Vec::new(), pos: 0, eof: false };
        assert(r.remaining() =~= Seq::<u8>::empty());
        r
    }

    /// A chunker over a stream that is `data` and nothing more.
    pub fn over(params: FastCdc, data: Vec<u8>) -> (r: Self)
        ensures
            r.spec_params() == params,
            r.remaining() == data@,
            r.is_finished(),
    {
        let r = Self { params, buf: data, pos: 0, eof: true };
        assert(r.remaining() =~= data@);
        r
    }

    /// Takes the next bytes of the stream. After the end of the stream has
    /// been declared nothing is taken, and the result is `false`.
    pub fn feed(&mut self, bytes: &[u8]) -> (taken: bool)
        ensures
            taken == !old(self).is_finished(),
            final(self).spec_params() == old(self).spec_params(),
            final(self).is_finished() == old(self).is_finished(),
            final(self).remaining() == if taken {
                old(self).remaining() + bytes@
            } else {
                old(self).remaining()
            },
    {
        if self.eof {
            return false;
        }
        let mut fresh: Vec<u8> = Vec::new();
        if self.pos <= self.buf.len() {
            let rest = vstd::slice::slice_subrange(self.buf.as_slice(), self.pos, self.buf.len());
            crate::process::format::put_all(&mut fresh, rest);
        }
        crate::process::format::put_all(&mut fresh, bytes);
        assert(fresh@ =~= old(self).remaining() + bytes@);
        self.buf = fresh;
        self.pos = 0;
        assert(self.remaining() =~= fresh@);
        true
    }

    /// Declares the end of the stream.
    pub fn finish(&mut self)
        ensures
            final(self).spec_params() == old(self).spec_params(),
            final(self).is_finished(),
            final(self).remaining() == old(self).remaining(),
    {
        self.eof = true;
    }

    /// The size of buffer that holds every chunk: the largest chunk.
    pub fn preferred_buffer_size(&self) -> (r: usize)
        ensures
            r == self.spec_params().spec_max(),
    {
        self.params.max()
    }

    /// Whether more bytes, or the end of the stream, must come before the
    /// next chunk.
    pub fn wants_input(&self) -> (r: bool)
        ensures
            r == self.spec_wants_input(),
    {
        !self.eof && self.available() < self.params.max()
    }

    fn available(&self) -> (r: usize)
        ensures
            r == self.remaining().len(),
    {
        if self.pos <= self.buf.len() {
            self.buf.len() - self.pos
        } else {
            0
        }
    }

    /// The next chunk; `None` where input is wanted first, or the stream
    /// has ended and nothing is left.
    ///
    /// A chunk that is handed out before the end of the stream is the chunk
    /// that the algorithm cuts however the stream goes on.
    #[verifier::rlimit(50)]
    pub fn next_chunk(&mut self) -> (r: Option<Vec<u8>>)
        ensures
            final(self).spec_params() == old(self).spec_params(),
            final(self).is_finished() == old(self).is_finished(),
            match r {
                Some(chunk) => !old(self).spec_wants_input() && chunk@.len() > 0 && chunk@.len()
                    == old(self).spec_params().spec_cut(old(self).remaining()) && chunk@ == old(self).remaining().subrange(0, chunk@.len() as int) && final(self).remaining() == old(self).remaining().skip(chunk@.len() as int) && (forall|more: Seq<u8>|
                    !old(self).is_finished() ==> #[trigger] old(self).spec_params().spec_cut(
                        old(self).remaining() + more,
                    ) == chunk@.len()),
                None => final(self).remaining() == old(self).remaining() && (old(self).spec_wants_input() || old(self).remaining().len() == 0),
            },
    {
        if self.wants_input() || self.available() == 0 {
            return None;
        }
        let rest = vstd::slice::slice_subrange(self.buf.as_slice(), self.pos, self.buf.len());
        assert(rest@ =~= self.remaining());
        let c = self.params.cut(rest);
        let chunk = crate::process::compress::copy_bytes(vstd::slice::slice_subrange(rest, 0, c));
        proof {
            let params = self.params;
            let now = self.remaining();
            assert forall|more: Seq<u8>| !self.is_finished() implies #[trigger] params.spec_cut(
                now + more,
            ) == c by {
                let all = now + more;
                assert(all.subrange(0, now.len() as int) =~= now);
                params.lemma_cut_bounds(all);
                params.lemma_cut_prefix(all, now);
            }
        }
        self.pos = self.pos + c;
        assert(self.remaining() =~= old(self).remaining().skip(c as int));
        Some(chunk)
    }
}

impl ChunkRead for FastCdcChunker {
    open spec fn pending(&self) -> Seq<u8> {
        self.remaining()
    }

    fn prefered_buffer(&self) -> (r: Vec<u8>) {
        Vec::with_capacity(self.params.max())
    }

    /// Fails, with `Incomplete`, exactly where input is wanted first.
    /// Otherwise the chunk is the one that the algorithm cuts from what is
    /// there.
    fn read_chunk(&mut self, buf: &mut Vec<u8>) -> (r: Result<usize, ChunkError>)
        ensures
            final(self).spec_params() == old(self).spec_params(),
            final(self).is_finished() == old(self).is_finished(),
            r is Err <==> old(self).spec_wants_input(),
            r matches Err(e) ==> e == ChunkError::Incomplete,
            r matches Ok(n) ==> n == old(self).spec_params().spec_cut(old(self).remaining()),
    {
        match self.next_chunk() {
            Some(chunk) => {
                let n = chunk.len();
                proof {
                    old(self).spec_params().lemma_cut_bounds(old(self).remaining());
                }
                *buf = chunk;
                Ok(n)
            },
            None => {
                if self.wants_input() {
                    Err(ChunkError::Incomplete)
                } else {
                    buf.clear();
                    proof {
                        self.params.lemma_cut_bounds(self.remaining());
                        assert(buf@ =~= old(self).remaining().subrange(0, 0));
                        assert(self.remaining() =~= old(self).remaining().skip(0));
                    }
                    Ok(0)
                }
            },
        }
    }
}

impl Algorithm for FastCdc {
    type ChunkRead = FastCdcChunker;

    fn chunk(&self, data: Vec<u8>) -> (r: FastCdcChunker)
        ensures
            r.spec_params() == *self,
            r.is_finished(),
    {
        FastCdcChunker::over(*self, data)
    }
}

/// The reader of whatever algorithm a [`Chunker`] stands for.
#[derive(Debug)]
pub struct BoxedChunkRead(FastCdcChunker);

impl BoxedChunkRead {
    fn new(chunk_read: FastCdcChunker) -> (r: Self)
        ensures
            r.pending() == chunk_read.remaining(),
            r.spec_inner() == chunk_read,
    {
        Self(chunk_read)
    }

    /// The reader inside.
    pub closed spec fn spec_inner(&self) -> FastCdcChunker {
        self.0
    }

    /// The chunks, one by one.
    pub fn into_iter(self) -> (r: ChunkIter<BoxedChunkRead>)
        ensures
            r.spec_reader() == self,
            !r.spec_ended(),
    {
        ChunkIter::new(self)
    }
}

impl ChunkRead for BoxedChunkRead {
    open spec fn pending(&self) -> Seq<u8> {
        self.spec_inner().remaining()
    }

    fn prefered_buffer(&self) -> (r: Vec<u8>) {
        self.0.prefered_buffer()
    }

    /// Fails, with `Incomplete`, exactly where the reader inside wants
    /// input first. Otherwise the chunk is the one that its algorithm cuts
    /// from what is pending.
    fn read_chunk(&mut self, buf: &mut Vec<u8>) -> (r: Result<usize, ChunkError>)
        ensures
            final(self).spec_inner().spec_params() == old(self).spec_inner().spec_params(),
            final(self).spec_inner().is_finished() == old(self).spec_inner().is_finished(),
            r is Err <==> old(self).spec_inner().spec_wants_input(),
            r matches Err(e) ==> e == ChunkError::Incomplete,
            r matches Ok(n) ==> n == old(self).spec_inner().spec_params().spec_cut(
                old(self).pending(),
            ),
    {
        self.0.read_chunk(buf)
    }
}

/// Hands out the chunks of a reader one by one, up to the end of the source
/// or the first error of the reader.
#[derive(Debug)]
pub struct ChunkIter<C> {
    chunk_read: C,
    buf: Vec<u8>,
    ended: bool,
}

impl<C: ChunkRead> ChunkIter<C> {
    /// The reader that the chunks come from.
    pub closed spec fn spec_reader(&self) -> C {
        self.chunk_read
    }

    /// Whether the sequence has come to its end: the source has, or the
    /// reader has failed.
    pub closed spec fn spec_ended(&self) -> bool {
        self.ended
    }

    pub fn new(chunk_read: C) -> (r: Self)
        ensures
            r.spec_reader() == chunk_read,
            !r.spec_ended(),
    {
        let buf = chunk_read.prefered_buffer();
        Self { chunk_read, buf, ended: false }
    }

    /// The next chunk; `None` at the end of the sequence, and at every call
    /// after it.
    ///
    /// Before the end, the reader is asked once for a chunk. A length of 0
    /// is the end of the source. Any other length gives the chunk that the
    /// reader left in the buffer. An error of the reader is handed on, and
    /// ends the sequence.
    pub fn next(&mut self) -> (r: Option<Result<Vec<u8>, ChunkError>>)
        ensures
            old(self).spec_ended() ==> r is None && final(self).spec_ended() && final(self).spec_reader() == old(self).spec_reader(),
            !old(self).spec_ended() ==> exists|
                m: &mut C,
                b: &mut Vec<u8>,
                n: Result<usize, ChunkError>,
            | #[trigger]
                call_ensures(C::read_chunk, (m, b), n) && *m == old(self).spec_reader() && *final(m)
                    == final(self).spec_reader() && match n {
                    Ok(len) => if len == 0 {
                        r is None && final(self).spec_ended()
                    } else {
                        r matches Some(Ok(chunk)) && chunk@ == final(b)@ && !final(self).spec_ended()
                    },
                    Err(e) => r == Some(Err::<Vec<u8>, ChunkError>(e)) && final(self).spec_ended(),
                },
            match r {
                None => final(self).spec_reader().pending() == old(self).spec_reader().pending()
                    && (old(self).spec_ended() || old(self).spec_reader().pending().len() == 0),
                Some(Ok(chunk)) => chunk@.len() > 0 && chunk@ == old(self).spec_reader().pending().subrange(0, chunk@.len() as int) && final(self).spec_reader().pending() == old(self).spec_reader().pending().skip(
                    chunk@.len() as int,
                ),
                Some(Err(_)) => final(self).spec_reader().pending() == old(self).spec_reader().pending(),
            },
    {
        if self.ended {
            return None;
        }
        let bytes_read = match self.chunk_read.read_chunk(&mut self.buf) {
            Ok(bytes_read) => bytes_read,
            Err(err) => {
                self.ended = true;
                return Some(Err(err));
            },
        };
        if bytes_read == 0 {
            proof {
                assert(self.spec_reader().pending() =~= old(self).spec_reader().pending());
            }
            self.ended = true;
            None
        } else {
            Some(Ok(crate::process::compress::copy_bytes(self.buf.as_slice())))
        }
    }
}

impl ChunkIter<BoxedChunkRead> {
    /// All chunks that are left, in order. Where the end of the stream has
    /// been declared these are the chunks that the algorithm cuts from what
    /// is pending, none of them empty, and one after the other they are
    /// those bytes. Where it has not, the reader comes to want input, and
    /// that is the result.
    pub fn collect(self) -> (r: Result<Vec<Vec<u8>>, ChunkError>)
        ensures
            self.spec_ended() ==> (r matches Ok(chunks) && chunks@.len() == 0),
            !self.spec_ended() ==> (r is Ok <==> self.spec_reader().spec_inner().is_finished()),
            !self.spec_ended() ==> (r matches Ok(chunks) ==> spec_segments(chunks@)
                == self.spec_reader().spec_inner().spec_params().spec_chunks(
                self.spec_reader().pending(),
            ) && spec_concat(spec_segments(chunks@)) == self.spec_reader().pending()
                && forall|i: int| 0 <= i < chunks@.len() ==> (#[trigger] chunks@[i])@.len() > 0),
            r matches Err(e) ==> e == ChunkError::Incomplete,
    {
        let mut iter = self;
        let mut chunks: Vec<Vec<u8>> = Vec::new();
        let ghost params = self.spec_reader().spec_inner().spec_params();
        let ghost all = self.spec_reader().pending();
        proof {
            assert(spec_segments(chunks@) =~= Seq::<Seq<u8>>::empty());
            assert(Seq::<Seq<u8>>::empty() + params.spec_chunks(all) =~= params.spec_chunks(all));
        }
        if iter.ended {
            return Ok(chunks);
        }
        loop
            invariant
                !iter.spec_ended(),
                !self.spec_ended(),
                params == self.spec_reader().spec_inner().spec_params(),
                all == self.spec_reader().pending(),
                iter.spec_reader().spec_inner().spec_params() == params,
                iter.spec_reader().spec_inner().is_finished()
                    == self.spec_reader().spec_inner().is_finished(),
                params.spec_chunks(all) == spec_segments(chunks@) + params.spec_chunks(
                    iter.spec_reader().pending(),
                ),
                forall|i: int| 0 <= i < chunks@.len() ==> (#[trigger] chunks@[i])@.len() > 0,
            decreases iter.spec_reader().pending().len(),
        {
            let ghost pending = iter.spec_reader().pending();
            let ghost before = spec_segments(chunks@);
            match iter.next() {
                None => {
                    proof {
                        assert(params.spec_chunks(pending) =~= Seq::<Seq<u8>>::empty());
                        assert(before + Seq::<Seq<u8>>::empty() =~= before);
                        params.lemma_chunks_concat(all);
                    }
                    return Ok(chunks);
                },
                Some(Err(e)) => {
                    return Err(e);
                },
                Some(Ok(chunk)) => {
                    proof {
                        let c = chunk@.len() as int;
                        params.lemma_cut_bounds(pending);
                        assert(c == params.spec_cut(pending));
                        assert(before + (seq![pending.subrange(0, c)] + params.spec_chunks(
                            pending.skip(c),
                        )) =~= before.push(pending.subrange(0, c)) + params.spec_chunks(
                            pending.skip(c),
                        ));
                    }
                    chunks.push(chunk);
                    proof {
                        assert(spec_segments(chunks@) =~= before.push(chunk@));
                    }
                },
            }
        }
    }
}

impl Chunker {
    /// A reader of the chunks of `data`, which is the whole stream: its end
    /// is declared, so that the reader never wants input.
    pub fn chunk(&self, data: Vec<u8>) -> (r: BoxedChunkRead)
        ensures
            r.pending() == data@,
            r.spec_inner().spec_params() == self.spec_params(),
            r.spec_inner().is_finished(),
    {
        match self {
            Chunker::FastCdc(fastcdc) => BoxedChunkRead::new(fastcdc.chunk(data)),
        }
    }
}


impl crate::process::Instanciate for ChunkerParams {
    type Instance = Chunker;

    fn create(&self) -> (r: Chunker)
        ensures
            r == Chunker::FastCdc(self->0),
    {
        ChunkerParams::create(self)
    }
}

} // verus!
