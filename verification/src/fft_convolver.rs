//! Uniformly partitioned convolution: sizes, segments and block bookkeeping.
//!
//! An impulse response of capacity `L` is cut into `ceil(L / B)` segments
//! of `B` samples, where the block size `B` is a power of two. Input is
//! gathered into blocks of `B` samples whatever the caller's block size
//! is. The spectrum of each completed input block is kept in a ring whose
//! head moves backward by one slot per block.

use vstd::arithmetic::div_mod::*;
use vstd::arithmetic::power::pow;
use vstd::arithmetic::power2::*;
use vstd::prelude::*;

verus! {

/// Largest accepted block size.
pub const MAX_BLOCK_SIZE: usize = 0x4000_0000;

/// Number of complex bins in the spectrum of `size` real samples.
pub open spec fn spec_complex_size(size: int) -> int {
    size / 2 + 1
}

/// Number of complex bins in the spectrum of `size` real samples.
pub fn complex_size(size: usize) -> (r: usize)
    ensures
        r == spec_complex_size(size as int),
{
    (size / 2) + 1
}

/// `response`, followed by `pad` as often as it takes to make `capacity`
/// items.
pub open spec fn padded<T>(response: Seq<T>, capacity: nat, pad: T) -> Seq<T> {
    Seq::new(
        capacity,
        |i: int|
            if i < response.len() {
                response[i]
            } else {
                pad
            },
    )
}

/// Copies the first `src_size` items of `src` to the start of `dst` and
/// sets the rest of `dst` to `pad`.
pub fn copy_and_pad<T: Copy>(dst: &mut [T], src: &[T], src_size: usize, pad: T)
    requires
        src_size <= src@.len(),
        src_size <= old(dst)@.len(),
    ensures
        final(dst)@ == padded(src@.subrange(0, src_size as int), old(dst)@.len(), pad),
{
    let len: usize = dst.len();
    let mut i: usize = 0;
    while i < len
        invariant
            i <= len,
            len == dst@.len(),
            dst@.len() == old(dst)@.len(),
            src_size <= src@.len(),
            src_size <= len,
            forall|k: int| 0 <= k < i && k < src_size ==> dst@[k] == src@[k],
            forall|k: int| src_size <= k < i ==> dst@[k] == pad,
        decreases len - i,
    {
        if i < src_size {
            dst[i] = src[i];
        } else {
            dst[i] = pad;
        }
        i = i + 1;
    }
    proof {
        assert(dst@ =~= padded(src@.subrange(0, src_size as int), old(dst)@.len(), pad));
    }
}

/// A buffer of `len` items, each of them `value`.
pub fn filled<T: Copy>(len: usize, value: T) -> (r: Vec<T>)
    ensures
        r@ == padded(Seq::<T>::empty(), len as nat, value),
{
    let mut r: Vec<T> = Vec::new();
    let mut i: usize = 0;
    while i < len
        invariant
            i <= len,
            r@ == padded(Seq::<T>::empty(), i as nat, value),
        decreases len - i,
    {
        r.push(value);
        i = i + 1;
        proof {
            assert(r@ =~= padded(Seq::<T>::empty(), i as nat, value));
        }
    }
    r
}

/// `p`, doubled until it is no smaller than `n`.
pub open spec fn doubled_to(p: nat, n: nat) -> nat
    decreases
            if p < n {
                n - p
            } else {
                0
            },
{
    if p == 0 || p >= n {
        p
    } else {
        doubled_to(2 * p, n)
    }
}

/// The least power of two that is no smaller than `n`.
pub open spec fn spec_next_power_of_two(n: nat) -> nat {
    doubled_to(1, n)
}

/// Doubling a power of two that is below `2 n` ends at a power of two in
/// `[n, 2 n)`.
proof fn lemma_doubled_to(p: nat, n: nat)
    requires
        is_pow2(p as int),
        1 <= p < 2 * n,
    ensures
        is_pow2(doubled_to(p, n) as int),
        n <= doubled_to(p, n) < 2 * n,
    decreases
            if p < n {
                n - p
            } else {
                0
            },
{
    if p == 0 || p >= n {
    } else {
        assert(is_pow2(2 * p as int)) by {
            reveal(is_pow2);
        }
        lemma_doubled_to(2 * p, n);
    }
}

/// Of two powers of two, the smaller one is at most half of the larger.
proof fn lemma_pow2_gap(q: int, r: int)
    requires
        is_pow2(q),
        is_pow2(r),
        q < r,
    ensures
        2 * q <= r,
    decreases r,
{
    reveal(is_pow2);
    if q > 1 {
        lemma_pow2_gap(q / 2, r / 2);
    }
}

/// `spec_next_power_of_two(n)` is a power of two, it is no smaller than
/// `n`, and no power of two between `n` and it is smaller.
pub proof fn lemma_next_power_of_two_is_least(n: nat, q: nat)
    requires
        n >= 1,
    ensures
        is_pow2(spec_next_power_of_two(n) as int),
        n <= spec_next_power_of_two(n) < 2 * n,
        is_pow2(q as int) && q >= n ==> spec_next_power_of_two(n) <= q,
{
    assert(is_pow2(1)) by {
        reveal(is_pow2);
    }
    lemma_doubled_to(1, n);
    let r = spec_next_power_of_two(n);
    if is_pow2(q as int) && q >= n && q < r {
        lemma_pow2_gap(q as int, r as int);
    }
}

/// The largest accepted block size is a power of two.
proof fn lemma_max_block_size_is_pow2()
    ensures
        is_pow2(MAX_BLOCK_SIZE as int),
{
    lemma2_to64();
    lemma_pow2(30);
    assert(pow(2, 30) == MAX_BLOCK_SIZE as int);
    assert(is_pow2_exists(MAX_BLOCK_SIZE as int));
    is_pow2_equiv(MAX_BLOCK_SIZE as int);
}

/// The least power of two that is no smaller than `n`; 1 for `n == 0`.
pub fn next_power_of_two(n: usize) -> (r: usize)
    requires
        n <= MAX_BLOCK_SIZE,
    ensures
        r == spec_next_power_of_two(n as nat),
        r <= MAX_BLOCK_SIZE,
        r >= 1,
{
    let mut p: usize = 1;
    proof {
        assert(is_pow2(1)) by {
            reveal(is_pow2);
        }
        lemma_max_block_size_is_pow2();
    }
    while p < n
        invariant
            1 <= p,
            n <= MAX_BLOCK_SIZE,
            p <= MAX_BLOCK_SIZE,
            is_pow2(p as int),
            is_pow2(MAX_BLOCK_SIZE as int),
            doubled_to(p as nat, n as nat) == spec_next_power_of_two(n as nat),
        decreases
                if p < n {
                    n - p
                } else {
                    0
                },
    {
        proof {
            lemma_pow2_gap(p as int, MAX_BLOCK_SIZE as int);
            assert(is_pow2(2 * p as int)) by {
                reveal(is_pow2);
            }
        }
        p = p * 2;
    }
    p
}

/// Number of segments of `block_size` samples that cover `len` samples:
/// `len / block_size`, rounded up.
pub open spec fn spec_segment_count(len: nat, block_size: nat) -> nat {
    ((len + block_size - 1) / (block_size as int)) as nat
}

/// `spec_segment_count` is `len / block_size`, one more if a remainder is
/// left; that many segments cover `len` samples and one fewer do not.
pub proof fn lemma_segment_count(len: nat, block_size: nat)
    requires
        block_size > 0,
    ensures
        spec_segment_count(len, block_size) == if len % block_size == 0 {
            len / block_size
        } else {
            len / block_size + 1
        },
        spec_segment_count(len, block_size) * block_size >= len,
        len > 0 ==> (spec_segment_count(len, block_size) - 1) * block_size < len,
        len == 0 ==> spec_segment_count(len, block_size) == 0,
        spec_segment_count(len, block_size) <= len,
{
    let b = block_size as int;
    let q = len as int / b;
    let m = len as int % b;
    lemma_fundamental_div_mod(len as int, b);
    lemma_mod_bound(len as int, b);
    assert(b * q == q * b) by (nonlinear_arith);
    assert(q >= 0) by {
        lemma_div_pos_is_pos(len as int, b);
    }
    assert(q <= q * b) by (nonlinear_arith)
        requires
            q >= 0,
            b >= 1,
    ;
    if m == 0 {
        lemma_fundamental_div_mod_converse(len + b - 1, b, q, b - 1);
        assert((q - 1) * b == q * b - b) by (nonlinear_arith);
    } else {
        assert((q + 1) * b == q * b + b) by (nonlinear_arith);
        lemma_fundamental_div_mod_converse(len + b - 1, b, q + 1, m - 1);
    }
}

/// Number of segments of `block_size` samples that cover `len` samples.
pub fn segment_count(len: usize, block_size: usize) -> (r: usize)
    requires
        block_size > 0,
    ensures
        r == spec_segment_count(len as nat, block_size as nat),
{
    proof {
        lemma_segment_count(len as nat, block_size as nat);
    }
    let full: usize = len / block_size;
    if len % block_size == 0 {
        full
    } else {
        full + 1
    }
}

/// Number of samples of a response of `len` samples that lie in segment
/// `index`: `block_size` for a full segment, fewer for the last one, none
/// beyond it.
pub open spec fn spec_segment_len(len: nat, block_size: nat, index: nat) -> nat {
    if index * block_size >= len {
        0
    } else if len - index * block_size >= block_size {
        block_size
    } else {
        (len - index * block_size) as nat
    }
}

/// Number of samples of a response of `len` samples that lie in segment
/// `index`. The segment starts at sample `index * block_size`.
pub fn segment_len(len: usize, block_size: usize, index: usize) -> (r: usize)
    requires
        block_size > 0,
    ensures
        r == spec_segment_len(len as nat, block_size as nat, index as nat),
        r > 0 ==> index * block_size + r <= len,
{
    let full: usize = len / block_size;
    proof {
        let b = block_size as int;
        let q = full as int;
        let i = index as int;
        lemma_fundamental_div_mod(len as int, b);
        lemma_mod_bound(len as int, b);
        assert(b * q == q * b) by (nonlinear_arith);
        if i < q {
            assert(i * b + b <= q * b) by (nonlinear_arith)
                requires
                    i + 1 <= q,
                    b >= 1,
            ;
        } else if i > q {
            assert(i * b >= q * b + b) by (nonlinear_arith)
                requires
                    i >= q + 1,
                    b >= 1,
            ;
        }
    }
    if index < full {
        block_size
    } else if index == full {
        len % block_size
    } else {
        0
    }
}

/// The segments cut the response up: a segment holds samples if and only
/// if it is one of the `spec_segment_count` first ones, each of these is
/// full but for the last, and the last ends where the response ends.
/// Beyond them there is but padding.
pub proof fn lemma_segments_cut_response(len: nat, block_size: nat, index: nat)
    requires
        block_size > 0,
    ensures
        spec_segment_len(len, block_size, index) > 0 <==> index < spec_segment_count(
            len,
            block_size,
        ),
        index + 1 < spec_segment_count(len, block_size) ==> spec_segment_len(
            len,
            block_size,
            index,
        ) == block_size,
        index + 1 == spec_segment_count(len, block_size) ==> index * block_size
            + spec_segment_len(len, block_size, index) == len,
{
    lemma_segment_count(len, block_size);
    let b = block_size as int;
    let count = spec_segment_count(len, block_size) as int;
    let i = index as int;
    if i < count {
        assert(i * b <= (count - 1) * b) by (nonlinear_arith)
            requires
                i <= count - 1,
                b >= 1,
        ;
        if i + 1 < count {
            assert((i + 1) * b <= (count - 1) * b) by (nonlinear_arith)
                requires
                    i + 1 <= count - 1,
                    b >= 1,
            ;
            assert((i + 1) * b == i * b + b) by (nonlinear_arith);
        } else {
            assert(count * b == (count - 1) * b + b) by (nonlinear_arith);
        }
    } else {
        assert(i * b >= count * b) by (nonlinear_arith)
            requires
                i >= count,
                b >= 1,
        ;
    }
}

/// Slot of a ring of `active` slots that holds the input block which is
/// `age` blocks older than the one in slot `newest`. The ring is written
/// backward, so older blocks lie ahead.
pub open spec fn spec_ring_slot(newest: nat, age: nat, active: nat) -> nat {
    (newest + age) % active
}

/// Slot of a ring of `active` slots that holds the input block which is
/// `age` blocks older than the one in slot `newest`.
pub fn ring_slot(newest: usize, age: usize, active: usize) -> (r: usize)
    requires
        newest < active,
        age < active,
    ensures
        r == spec_ring_slot(newest as nat, age as nat, active as nat),
        r < active,
{
    let ahead: usize = active - newest;
    if age < ahead {
        proof {
            lemma_small_mod((newest + age) as nat, active as nat);
        }
        newest + age
    } else {
        proof {
            lemma_fundamental_div_mod_converse(newest + age, active as int, 1, age - ahead);
        }
        age - ahead
    }
}

/// Why a convolver cannot be constructed.
#[derive(Clone, Copy, Debug, PartialEq, Eq, Structural)]
pub enum ConfigError {
    /// The impulse response is longer than the capacity asked for.
    ResponseTooLong,
    /// The block size is zero.
    ZeroBlockSize,
}

/// A run of samples that is handled in one go: it lies within one block.
#[derive(Clone, Copy, Debug, PartialEq, Eq, Structural)]
pub struct Chunk {
    /// Number of samples consumed and produced.
    pub len: usize,
    /// Position in the block at which the samples go.
    pub buffer_pos: usize,
    /// Ring slot that takes the spectrum of the block being filled.
    pub slot: usize,
    /// The block was empty before this chunk: the products of the older
    /// input blocks are summed afresh.
    pub starts_block: bool,
    /// The block is full after this chunk: the ring moves on.
    pub completes_block: bool,
}

/// Mathematical state of a partitioned convolver.
pub struct ConvolverState {
    /// Capacity of the impulse response, in samples.
    pub capacity: nat,
    /// Block size `B`.
    pub block_size: nat,
    /// Number of segments that the capacity is cut into.
    pub seg_count: nat,
    /// Number of leading segments that are in use.
    pub active_seg_count: nat,
    /// Ring slot of the newest input block.
    pub current: nat,
    /// Samples gathered in the block being filled.
    pub input_buffer_fill: nat,
}

impl ConvolverState {
    /// The invariant of a partitioned convolver.
    pub open spec fn wf(self) -> bool {
        &&& is_pow2(self.block_size as int)
        &&& 1 <= self.block_size <= MAX_BLOCK_SIZE
        &&& self.capacity <= usize::MAX
        &&& self.seg_count == spec_segment_count(self.capacity, self.block_size)
        &&& self.active_seg_count <= self.seg_count
        &&& self.current < self.active_seg_count || (self.active_seg_count == 0 && self.current
            == 0)
        &&& self.input_buffer_fill < self.block_size
    }

    /// The state after construction: every segment is in use.
    pub open spec fn initial(max_block_size: nat, max_response_length: nat) -> ConvolverState {
        let block_size = spec_next_power_of_two(max_block_size);
        ConvolverState {
            capacity: max_response_length,
            block_size,
            seg_count: spec_segment_count(max_response_length, block_size),
            active_seg_count: spec_segment_count(max_response_length, block_size),
            current: 0,
            input_buffer_fill: 0,
        }
    }

    /// The state after the response was replaced at once by one of
    /// `response_len` samples.
    pub open spec fn after_update(self, response_len: nat) -> ConvolverState {
        ConvolverState {
            active_seg_count: spec_segment_count(response_len, self.block_size),
            current: 0,
            input_buffer_fill: 0,
            ..self
        }
    }

    /// Ring slot of the input block that is `age` blocks older than the
    /// newest one.
    pub open spec fn input_slot(self, age: nat) -> nat {
        spec_ring_slot(self.current, age, self.active_seg_count)
    }

    /// The ring slot before `slot`, going round.
    pub open spec fn slot_before(self, slot: nat) -> nat {
        if slot > 0 {
            (slot - 1) as nat
        } else {
            (self.active_seg_count - 1) as nat
        }
    }

    /// The next chunk when `remaining` samples are left of a call.
    pub open spec fn next_chunk(self, remaining: nat) -> Chunk {
        let room = self.block_size - self.input_buffer_fill;
        let len = if remaining < room {
            remaining as int
        } else {
            room
        };
        Chunk {
            len: len as usize,
            buffer_pos: self.input_buffer_fill as usize,
            slot: self.current as usize,
            starts_block: self.input_buffer_fill == 0,
            completes_block: self.input_buffer_fill + len == self.block_size,
        }
    }

    /// The state after a chunk of `len` samples.
    pub open spec fn after_chunk(self, len: nat) -> ConvolverState {
        if self.input_buffer_fill + len == self.block_size {
            ConvolverState {
                input_buffer_fill: 0,
                current: self.slot_before(self.current),
                ..self
            }
        } else {
            ConvolverState { input_buffer_fill: self.input_buffer_fill + len, ..self }
        }
    }

    /// The chunks that a call with `len` samples is cut into. With no
    /// segment in use there is none: the output is silence.
    pub open spec fn plan(self, len: nat) -> Seq<Chunk>
        decreases len,
    {
        if len == 0 || self.active_seg_count == 0 || !self.wf() {
            Seq::empty()
        } else {
            let chunk = self.next_chunk(len);
            seq![chunk] + self.after_chunk(chunk.len as nat).plan((len - chunk.len) as nat)
        }
    }

    /// The state after a call with `len` samples.
    pub open spec fn after(self, len: nat) -> ConvolverState
        decreases len,
    {
        if len == 0 || self.active_seg_count == 0 || !self.wf() {
            self
        } else {
            let chunk = self.next_chunk(len);
            self.after_chunk(chunk.len as nat).after((len - chunk.len) as nat)
        }
    }
}

/// Number of samples in a sequence of chunks.
pub open spec fn total_len(chunks: Seq<Chunk>) -> nat
    decreases chunks.len(),
{
    if chunks.len() == 0 {
        0
    } else {
        chunks[0].len as nat + total_len(chunks.subrange(1, chunks.len() as int))
    }
}

/// Number of chunks in a sequence that complete a block.
pub open spec fn completed_blocks(chunks: Seq<Chunk>) -> nat
    decreases chunks.len(),
{
    if chunks.len() == 0 {
        0
    } else {
        (if chunks[0].completes_block {
            1nat
        } else {
            0nat
        }) + completed_blocks(chunks.subrange(1, chunks.len() as int))
    }
}

/// A chunk keeps the invariant; it is not empty and lies within the block.
pub proof fn lemma_chunk(s: ConvolverState, remaining: nat)
    requires
        s.wf(),
        s.active_seg_count > 0,
        remaining > 0,
    ensures
        ({
            let chunk = s.next_chunk(remaining);
            &&& 1 <= chunk.len <= remaining
            &&& chunk.buffer_pos == s.input_buffer_fill
            &&& chunk.buffer_pos + chunk.len <= s.block_size
            &&& chunk.slot == s.current
            &&& chunk.slot < s.active_seg_count
            &&& chunk.completes_block <==> chunk.buffer_pos + chunk.len == s.block_size
            &&& !chunk.completes_block ==> chunk.len == remaining
            &&& s.after_chunk(chunk.len as nat).wf()
            &&& s.after_chunk(chunk.len as nat).active_seg_count == s.active_seg_count
        }),
{
    lemma_segment_count(s.capacity, s.block_size);
}

/// The fault, if there is one, that keeps a convolver for a response of
/// `response_len` samples from being constructed.
pub open spec fn init_error(
    response_len: nat,
    max_block_size: nat,
    max_response_length: nat,
) -> Option<ConfigError> {
    if response_len > max_response_length {
        Some(ConfigError::ResponseTooLong)
    } else if max_block_size == 0 {
        Some(ConfigError::ZeroBlockSize)
    } else {
        None
    }
}

/// Block bookkeeping of a uniformly partitioned convolver.
#[derive(Clone, Copy, Debug)]
pub struct FFTConvolver {
    ir_len: usize,
    block_size: usize,
    seg_count: usize,
    active_seg_count: usize,
    current: usize,
    input_buffer_fill: usize,
}

impl View for FFTConvolver {
    type V = ConvolverState;

    closed spec fn view(&self) -> ConvolverState {
        ConvolverState {
            capacity: self.ir_len as nat,
            block_size: self.block_size as nat,
            seg_count: self.seg_count as nat,
            active_seg_count: self.active_seg_count as nat,
            current: self.current as nat,
            input_buffer_fill: self.input_buffer_fill as nat,
        }
    }
}

impl FFTConvolver {
    /// A convolver for responses of up to `max_response_length` samples,
    /// holding one of `response_len` samples. The block size is
    /// `max_block_size`, rounded up to a power of two. Every segment of
    /// the capacity is in use: those beyond the response hold zeros.
    pub fn init(response_len: usize, max_block_size: usize, max_response_length: usize) -> (r:
        Result<Self, ConfigError>)
        requires
            max_block_size <= MAX_BLOCK_SIZE,
        ensures
            match r {
                Ok(c) => {
                    &&& init_error(
                        response_len as nat,
                        max_block_size as nat,
                        max_response_length as nat,
                    ) is None
                    &&& c@ == ConvolverState::initial(
                        max_block_size as nat,
                        max_response_length as nat,
                    )
                    &&& c@.wf()
                },
                Err(e) => init_error(
                    response_len as nat,
                    max_block_size as nat,
                    max_response_length as nat,
                ) == Some(e),
            },
    {
        if response_len > max_response_length {
            return Err(ConfigError::ResponseTooLong);
        }
        if max_block_size == 0 {
            return Err(ConfigError::ZeroBlockSize);
        }
        let block_size = next_power_of_two(max_block_size);
        let seg_count = segment_count(max_response_length, block_size);
        proof {
            lemma_next_power_of_two_is_least(max_block_size as nat, 0);
        }
        Ok(
            FFTConvolver {
                ir_len: max_response_length,
                block_size,
                seg_count,
                active_seg_count: seg_count,
                current: 0,
                input_buffer_fill: 0,
            },
        )
    }

    /// Replaces the response at once by one of `response_len` samples:
    /// the segments that it covers are in use, the ring starts over and
    /// the block being filled is dropped.
    pub fn update(&mut self, response_len: usize)
        requires
            old(self)@.wf(),
            response_len <= old(self)@.capacity,
        ensures
            final(self)@ == old(self)@.after_update(response_len as nat),
            final(self)@.wf(),
    {
        proof {
            lemma_div_is_ordered(
                response_len + self.block_size - 1,
                self.ir_len + self.block_size - 1,
                self.block_size as int,
            );
        }
        self.active_seg_count = segment_count(response_len, self.block_size);
        self.input_buffer_fill = 0;
        self.current = 0;
    }

    /// The next chunk when `remaining` samples are left of a call; none
    /// when no sample is left or no segment is in use.
    pub fn next_chunk(&self, remaining: usize) -> (r: Option<Chunk>)
        requires
            self@.wf(),
        ensures
            r == if remaining == 0 || self@.active_seg_count == 0 {
                None
            } else {
                Some(self@.next_chunk(remaining as nat))
            },
    {
        if remaining == 0 || self.active_seg_count == 0 {
            return None;
        }
        let room: usize = self.block_size - self.input_buffer_fill;
        let len: usize = if remaining < room {
            remaining
        } else {
            room
        };
        Some(
            Chunk {
                len,
                buffer_pos: self.input_buffer_fill,
                slot: self.current,
                starts_block: self.input_buffer_fill == 0,
                completes_block: self.input_buffer_fill + len == self.block_size,
            },
        )
    }

    /// Takes note that a chunk of `len` samples was handled. When that
    /// fills the block, the ring moves backward by one slot and the next
    /// block starts empty.
    pub fn complete_chunk(&mut self, len: usize)
        requires
            old(self)@.wf(),
            old(self)@.active_seg_count > 0,
            old(self)@.input_buffer_fill + len <= old(self)@.block_size,
        ensures
            final(self)@ == old(self)@.after_chunk(len as nat),
            final(self)@.wf(),
    {
        if self.input_buffer_fill + len == self.block_size {
            self.input_buffer_fill = 0;
            self.current = if self.current > 0 {
                self.current - 1
            } else {
                self.active_seg_count - 1
            };
        } else {
            self.input_buffer_fill = self.input_buffer_fill + len;
        }
    }

    /// Cuts a call with `len` samples into chunks, one after the other as
    /// they are to be handled, and moves on past them. The chunks come in
    /// a new vector; `next_chunk` and `complete_chunk` do the same one by
    /// one.
    pub fn process(&mut self, len: usize) -> (chunks: Vec<Chunk>)
        requires
            old(self)@.wf(),
        ensures
            chunks@ == old(self)@.plan(len as nat),
            final(self)@ == old(self)@.after(len as nat),
            final(self)@.wf(),
    {
        let mut chunks: Vec<Chunk> = Vec::new();
        let mut processed: usize = 0;
        while processed < len
            invariant
                processed <= len,
                self@.wf(),
                chunks@ + self@.plan((len - processed) as nat) == old(self)@.plan(len as nat),
                self@.after((len - processed) as nat) == old(self)@.after(len as nat),
            decreases len - processed,
        {
            match self.next_chunk(len - processed) {
                None => {
                    processed = len;
                },
                Some(chunk) => {
                    proof {
                        lemma_chunk(self@, (len - processed) as nat);
                        let rest = self@.after_chunk(chunk.len as nat).plan(
                            (len - processed - chunk.len) as nat,
                        );
                        assert(chunks@.push(chunk) + rest =~= chunks@ + (seq![chunk] + rest));
                    }
                    self.complete_chunk(chunk.len);
                    chunks.push(chunk);
                    processed = processed + chunk.len;
                },
            }
        }
        chunks
    }

    /// Capacity of the impulse response, in samples.
    pub fn capacity(&self) -> (r: usize)
        ensures
            r == self@.capacity,
    {
        self.ir_len
    }

    /// The block size.
    pub fn block_size(&self) -> (r: usize)
        ensures
            r == self@.block_size,
    {
        self.block_size
    }

    /// Number of segments that the capacity is cut into.
    pub fn seg_count(&self) -> (r: usize)
        ensures
            r == self@.seg_count,
    {
        self.seg_count
    }

    /// Number of leading segments that are in use.
    pub fn active_seg_count(&self) -> (r: usize)
        ensures
            r == self@.active_seg_count,
    {
        self.active_seg_count
    }

    /// Ring slot of the newest input block.
    pub fn current(&self) -> (r: usize)
        ensures
            r == self@.current,
    {
        self.current
    }

    /// Samples gathered in the block being filled.
    pub fn input_buffer_fill(&self) -> (r: usize)
        ensures
            r == self@.input_buffer_fill,
    {
        self.input_buffer_fill
    }

    /// Ring slot of the input block that is `age` blocks older than the
    /// newest one.
    pub fn input_slot(&self, age: usize) -> (r: usize)
        requires
            self@.wf(),
            age < self@.active_seg_count,
        ensures
            r == self@.input_slot(age as nat),
            r < self@.active_seg_count,
    {
        ring_slot(self.current, age, self.active_seg_count)
    }
}

/// A call keeps the invariant, the number of segments in use, the block
/// size and the capacity.
pub proof fn lemma_after_keeps_invariant(s: ConvolverState, len: nat)
    requires
        s.wf(),
    ensures
        s.after(len).wf(),
        s.after(len).active_seg_count == s.active_seg_count,
        s.after(len).block_size == s.block_size,
        s.after(len).seg_count == s.seg_count,
        s.after(len).capacity == s.capacity,
    decreases len,
{
    if len == 0 || s.active_seg_count == 0 {
    } else {
        lemma_chunk(s, len);
        let chunk = s.next_chunk(len);
        lemma_after_keeps_invariant(s.after_chunk(chunk.len as nat), (len - chunk.len) as nat);
    }
}

/// A power of two is its own rounding.
pub proof fn lemma_power_of_two_is_kept(n: nat)
    requires
        is_pow2(n as int),
    ensures
        spec_next_power_of_two(n) == n,
{
    assert(n >= 1) by {
        reveal(is_pow2);
    }
    lemma_next_power_of_two_is_least(n, n);
}

/// Replacing the response at once starts over: the state is that of a
/// convolver newly made with the same block size and capacity, but for
/// the number of segments in use, which is that of the response. With a
/// response that reaches into the last segment there is no difference.
pub proof fn lemma_update_starts_over(s: ConvolverState, response_len: nat)
    requires
        s.wf(),
        response_len <= s.capacity,
    ensures
        s.after_update(response_len) == (ConvolverState {
            active_seg_count: spec_segment_count(response_len, s.block_size),
            ..ConvolverState::initial(s.block_size, s.capacity)
        }),
        spec_segment_count(response_len, s.block_size) == s.seg_count ==> s.after_update(
            response_len,
        ) == ConvolverState::initial(s.block_size, s.capacity),
        s.after_update(response_len).wf(),
{
    lemma_power_of_two_is_kept(s.block_size);
    lemma_div_is_ordered(
        response_len + s.block_size - 1,
        s.capacity + s.block_size - 1,
        s.block_size as int,
    );
}

/// The chunks of a call hold all its samples, and as many of them
/// complete a block as blocks fit into the samples gathered before the
/// call and those of the call. What is left over is gathered after the
/// call, and the ring has moved backward by one slot for each completed
/// block.
pub proof fn lemma_plan_covers(s: ConvolverState, len: nat)
    requires
        s.wf(),
        s.active_seg_count > 0,
    ensures
        total_len(s.plan(len)) == len,
        completed_blocks(s.plan(len)) == (s.input_buffer_fill + len) / s.block_size,
        s.after(len).input_buffer_fill == (s.input_buffer_fill + len) % s.block_size,
        (s.after(len).current + completed_blocks(s.plan(len))) % s.active_seg_count == s.current,
    decreases len,
{
    let b = s.block_size as int;
    let n = s.active_seg_count as int;
    let fill = s.input_buffer_fill as int;
    if len == 0 {
        lemma_small_mod(s.input_buffer_fill, s.block_size);
        lemma_basic_div(fill, b);
        lemma_small_mod(s.current, s.active_seg_count);
    } else {
        lemma_chunk(s, len);
        let chunk = s.next_chunk(len);
        let next = s.after_chunk(chunk.len as nat);
        let rest = (len - chunk.len) as nat;
        lemma_plan_covers(next, rest);
        lemma_after_keeps_invariant(next, rest);
        let tail = next.plan(rest);
        assert(s.plan(len) == seq![chunk] + tail);
        assert(s.plan(len)[0] == chunk);
        assert(s.plan(len).subrange(1, s.plan(len).len() as int) =~= tail);
        if chunk.completes_block {
            assert(fill + len == rest + b);
            lemma_mod_add_multiples_vanish(rest as int, b);
            lemma_div_plus_one(rest as int, b);
            let done = completed_blocks(tail) as int;
            let last = s.after(len).current as int;
            assert((last + done) % n == next.current);
            lemma_add_mod_noop(last + done, 1, n);
            if n == 1 {
                lemma_mod_self_0(n);
                lemma_small_mod(0, 1);
            } else {
                lemma_small_mod(1, n as nat);
                if s.current > 0 {
                    lemma_small_mod(s.current, n as nat);
                } else {
                    lemma_mod_self_0(n);
                }
            }
        } else {
            assert(rest == 0);
            assert(tail =~= Seq::<Chunk>::empty());
            lemma_small_mod((fill + len) as nat, s.block_size);
            lemma_basic_div(fill + len, b);
            lemma_small_mod(s.current, s.active_seg_count);
        }
    }
}

/// Two chunks that lie within one block leave the state that their sum
/// leaves.
pub proof fn lemma_chunks_join(s: ConvolverState, first: nat, second: nat)
    requires
        s.wf(),
        s.active_seg_count > 0,
        first > 0,
        s.input_buffer_fill + first < s.block_size,
        s.input_buffer_fill + first + second <= s.block_size,
    ensures
        s.after_chunk(first).after_chunk(second) == s.after_chunk(first + second),
{
}

/// Cutting a call in two changes nothing: a call with `a` samples and
/// then one with `b` samples leave the state that one call with `a + b`
/// samples leaves.
pub proof fn lemma_after_splits(s: ConvolverState, a: nat, b: nat)
    requires
        s.wf(),
    ensures
        s.after(a).after(b) == s.after(a + b),
    decreases a,
{
    if a == 0 || s.active_seg_count == 0 {
    } else {
        lemma_chunk(s, a);
        lemma_chunk(s, a + b);
        let first = s.next_chunk(a).len as nat;
        let whole = s.next_chunk(a + b).len as nat;
        if first == whole {
            lemma_after_splits(s.after_chunk(first), (a - first) as nat, b);
        } else {
            assert(first == a);
            let mid = s.after_chunk(a);
            assert(s.after(a) == mid.after(0));
            assert(mid.wf());
            if b > 0 {
                lemma_chunk(mid, b);
                assert(mid.next_chunk(b).len == whole - a);
                lemma_chunks_join(s, a, (whole - a) as nat);
            }
        }
    }
}

/// The ring keeps the input blocks by age: after `age` further blocks
/// were completed, the slot that was the newest one is the slot of the
/// block that is `age` blocks older than the newest.
pub proof fn lemma_ring_keeps_age(s: ConvolverState, age: nat)
    requires
        s.wf(),
        s.active_seg_count > 0,
        s.input_buffer_fill == 0,
    ensures
        s.after(age * s.block_size).input_slot(age) == s.current,
        s.after(age * s.block_size).input_buffer_fill == 0,
{
    let len = age * s.block_size;
    lemma_plan_covers(s, len);
    lemma_after_keeps_invariant(s, len);
    lemma_div_by_multiple(age as int, s.block_size as int);
    lemma_mod_multiples_basic(age as int, s.block_size as int);
}

} // verus!
