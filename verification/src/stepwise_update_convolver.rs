//! Stepwise update: a new impulse response replaces the old one segment
//! by segment, one segment at the start of each block, in index order.
//!
//! Segment `i` meets the input block that is `i` blocks old. Replacing
//! segment `i` exactly `i` blocks after the update therefore gives each
//! input block one response for all its segments: the old one if it was
//! pushed before the update, the new one if it was pushed after.

use crate::fft_convolver::{
    copy_and_pad, filled, init_error, lemma_chunk, lemma_chunks_join, lemma_segment_count, padded,
    Chunk, ConfigError, ConvolverState, FFTConvolver, MAX_BLOCK_SIZE,
};
use vstd::prelude::*;

verus! {

/// The buffer that takes a response handed to `update`.
#[derive(Clone, Copy, Debug, PartialEq, Eq, Structural)]
pub enum ResponseSlot {
    /// The response that is being loaded, or is loaded next.
    Stored,
    /// The one response that waits behind a switch in progress.
    Next,
}

/// What is done at the start of a block, before its samples are
/// handled.
#[derive(Clone, Copy, Debug, PartialEq, Eq, Structural)]
pub struct BlockStart {
    /// The waiting response becomes the stored one.
    pub promoted: bool,
    /// The segment whose spectrum is replaced from the stored response.
    pub load_segment: Option<usize>,
}

/// A chunk of a call, and what is done before it if it starts a block.
#[derive(Clone, Copy, Debug, PartialEq, Eq, Structural)]
pub struct StepwiseChunk {
    /// The block start, for a chunk that begins a block.
    pub start: Option<BlockStart>,
    /// The samples that are handled then.
    pub chunk: Chunk,
}

/// Mathematical state of a stepwise updater.
pub struct StepwiseState<T> {
    pub convolver: ConvolverState,
    /// The response that is being loaded, or was loaded last.
    pub stored_response: Seq<T>,
    /// The response that waits, if one does.
    pub next_response: Seq<T>,
    /// The sample that pads a response to the capacity: silence.
    pub pad: T,
    pub segment_to_load: nat,
    pub switching: bool,
    pub response_pending: bool,
}

impl<T> StepwiseState<T> {
    /// The invariant of a stepwise updater.
    pub open spec fn wf(self) -> bool {
        &&& self.convolver.wf()
        &&& self.stored_response.len() == self.convolver.capacity
        &&& self.next_response.len() == self.convolver.capacity
        &&& if self.switching {
            self.segment_to_load < self.convolver.active_seg_count || self.segment_to_load == 0
        } else {
            self.segment_to_load == 0
        }
    }

    /// The state after construction: both buffers hold silence.
    pub open spec fn initial(max_block_size: nat, max_response_length: nat, pad: T) -> Self {
        StepwiseState {
            convolver: ConvolverState::initial(max_block_size, max_response_length),
            stored_response: padded(Seq::empty(), max_response_length, pad),
            next_response: padded(Seq::empty(), max_response_length, pad),
            pad,
            segment_to_load: 0,
            switching: false,
            response_pending: false,
        }
    }

    /// The buffer that takes the response of the next `update`.
    pub open spec fn update_slot(self) -> ResponseSlot {
        if self.switching {
            ResponseSlot::Next
        } else {
            ResponseSlot::Stored
        }
    }

    /// The state after `update` with `response`: the buffer that took
    /// it holds it, padded to the capacity.
    pub open spec fn after_update(self, response: Seq<T>) -> Self {
        if self.switching {
            StepwiseState {
                next_response: padded(response, self.convolver.capacity, self.pad),
                response_pending: true,
                ..self
            }
        } else {
            StepwiseState {
                stored_response: padded(response, self.convolver.capacity, self.pad),
                switching: true,
                response_pending: false,
                ..self
            }
        }
    }

    /// Whether the next block starts by promoting the waiting response.
    pub open spec fn promotes(self) -> bool {
        !self.switching && self.response_pending
    }

    /// What the next block starts with.
    pub open spec fn block_start(self) -> BlockStart {
        BlockStart {
            promoted: self.promotes(),
            load_segment: if (self.switching || self.response_pending) && self.segment_to_load
                < self.convolver.active_seg_count {
                Some(self.segment_to_load as usize)
            } else {
                None
            },
        }
    }

    /// The state after the waiting response was promoted, if it is to
    /// be: it is the stored one, and a switch to it begins.
    pub open spec fn promoted(self) -> Self {
        if self.promotes() {
            StepwiseState {
                stored_response: self.next_response,
                switching: true,
                response_pending: false,
                ..self
            }
        } else {
            self
        }
    }

    /// The state after the start of the next block.
    pub open spec fn after_block_start(self) -> Self {
        let s = self.promoted();
        if s.switching {
            if s.segment_to_load + 1 < s.convolver.active_seg_count {
                StepwiseState { segment_to_load: s.segment_to_load + 1, ..s }
            } else {
                StepwiseState { switching: false, segment_to_load: 0, ..s }
            }
        } else {
            s
        }
    }

    /// The state in which the next chunk is handled: the block has been
    /// started if the chunk begins one.
    pub open spec fn begun(self) -> Self {
        if self.convolver.input_buffer_fill == 0 {
            self.after_block_start()
        } else {
            self
        }
    }

    /// The next chunk when `remaining` samples are left of a call.
    pub open spec fn next_chunk(self, remaining: nat) -> StepwiseChunk {
        StepwiseChunk {
            start: if self.convolver.input_buffer_fill == 0 {
                Some(self.block_start())
            } else {
                None
            },
            chunk: self.convolver.next_chunk(remaining),
        }
    }

    /// The state after the next chunk when `remaining` samples are left
    /// of a call.
    pub open spec fn after_chunk(self, remaining: nat) -> Self {
        StepwiseState {
            convolver: self.convolver.after_chunk(
                self.convolver.next_chunk(remaining).len as nat,
            ),
            ..self.begun()
        }
    }

    /// The chunks that a call with `len` samples is cut into. With no
    /// segment in use there is none: the output is silence.
    pub open spec fn plan(self, len: nat) -> Seq<StepwiseChunk>
        decreases len,
    {
        if len == 0 || self.convolver.active_seg_count == 0 || !self.wf() {
            Seq::empty()
        } else {
            let chunk = self.next_chunk(len);
            seq![chunk] + self.after_chunk(len).plan((len - chunk.chunk.len) as nat)
        }
    }

    /// The state after a call with `len` samples.
    pub open spec fn after(self, len: nat) -> Self
        decreases len,
    {
        if len == 0 || self.convolver.active_seg_count == 0 || !self.wf() {
            self
        } else {
            let chunk = self.next_chunk(len);
            self.after_chunk(len).after((len - chunk.chunk.len) as nat)
        }
    }

    /// The state after `blocks` blocks of input.
    pub open spec fn after_blocks(self, blocks: nat) -> Self
        decreases blocks,
    {
        if blocks == 0 {
            self
        } else {
            self.after_blocks((blocks - 1) as nat).after(self.convolver.block_size)
        }
    }
}

/// A block start keeps the invariant and leaves the convolver alone.
pub proof fn lemma_block_start<T>(s: StepwiseState<T>)
    requires
        s.wf(),
    ensures
        s.after_block_start().wf(),
        s.after_block_start().convolver == s.convolver,
{
}

/// A chunk keeps the invariant and the sizes.
pub proof fn lemma_stepwise_chunk<T>(s: StepwiseState<T>, remaining: nat)
    requires
        s.wf(),
        s.convolver.active_seg_count > 0,
        remaining > 0,
    ensures
        s.after_chunk(remaining).wf(),
        s.after_chunk(remaining).convolver.active_seg_count == s.convolver.active_seg_count,
        s.after_chunk(remaining).convolver.block_size == s.convolver.block_size,
{
    lemma_chunk(s.convolver, remaining);
    lemma_block_start(s);
}

/// Bookkeeping and response buffers of a convolver whose response is
/// replaced stepwise. `T` is the type of a sample.
#[derive(Clone, Debug)]
pub struct StepwiseUpdateConvolver<T> {
    convolver: FFTConvolver,
    stored_response: Vec<T>,
    next_response: Vec<T>,
    pad: T,
    segment_to_load: usize,
    switching: bool,
    response_pending: bool,
}

impl<T> View for StepwiseUpdateConvolver<T> {
    type V = StepwiseState<T>;

    closed spec fn view(&self) -> StepwiseState<T> {
        StepwiseState {
            convolver: self.convolver@,
            stored_response: self.stored_response@,
            next_response: self.next_response@,
            pad: self.pad,
            segment_to_load: self.segment_to_load as nat,
            switching: self.switching,
            response_pending: self.response_pending,
        }
    }
}

impl<T: Copy> StepwiseUpdateConvolver<T> {
    /// An updater for responses of up to `max_response_length` samples,
    /// made for one of `response_len` samples, with blocks of
    /// `max_buffer_size` samples, rounded up to a power of two. `pad` is
    /// the sample of silence.
    pub fn new(
        response_len: usize,
        max_response_length: usize,
        max_buffer_size: usize,
        pad: T,
    ) -> (r: Result<Self, ConfigError>)
        requires
            max_buffer_size <= MAX_BLOCK_SIZE,
        ensures
            match r {
                Ok(c) => {
                    &&& init_error(
                        response_len as nat,
                        max_buffer_size as nat,
                        max_response_length as nat,
                    ) is None
                    &&& c@ == StepwiseState::initial(
                        max_buffer_size as nat,
                        max_response_length as nat,
                        pad,
                    )
                    &&& c@.wf()
                },
                Err(e) => init_error(
                    response_len as nat,
                    max_buffer_size as nat,
                    max_response_length as nat,
                ) == Some(e),
            },
    {
        match FFTConvolver::init(response_len, max_buffer_size, max_response_length) {
            Ok(convolver) => Ok(
                StepwiseUpdateConvolver {
                    convolver,
                    stored_response: filled(max_response_length, pad),
                    next_response: filled(max_response_length, pad),
                    pad,
                    segment_to_load: 0,
                    switching: false,
                    response_pending: false,
                },
            ),
            Err(e) => Err(e),
        }
    }

    /// `new`, with the sizes in the order that all convolvers share.
    pub fn init(
        response_len: usize,
        max_block_size: usize,
        max_response_length: usize,
        pad: T,
    ) -> (r: Result<Self, ConfigError>)
        requires
            max_block_size <= MAX_BLOCK_SIZE,
        ensures
            match r {
                Ok(c) => {
                    &&& init_error(
                        response_len as nat,
                        max_block_size as nat,
                        max_response_length as nat,
                    ) is None
                    &&& c@ == StepwiseState::initial(
                        max_block_size as nat,
                        max_response_length as nat,
                        pad,
                    )
                    &&& c@.wf()
                },
                Err(e) => init_error(
                    response_len as nat,
                    max_block_size as nat,
                    max_response_length as nat,
                ) == Some(e),
            },
    {
        Self::new(response_len, max_response_length, max_block_size, pad)
    }

    /// Takes a new response into one of the two buffers, padded to the
    /// capacity, and says which. With no switch in progress it is the
    /// stored response, and a switch begins. During a switch it is the
    /// one waiting response, which replaces an earlier one that still
    /// waits.
    pub fn update(&mut self, response: &[T]) -> (slot: ResponseSlot)
        requires
            old(self)@.wf(),
            response@.len() <= old(self)@.convolver.capacity,
        ensures
            slot == old(self)@.update_slot(),
            final(self)@ == old(self)@.after_update(response@),
            final(self)@.wf(),
    {
        proof {
            assert(response@.subrange(0, response@.len() as int) =~= response@);
        }
        if !self.switching {
            copy_and_pad(self.stored_response.as_mut_slice(), response, response.len(), self.pad);
            self.switching = true;
            self.response_pending = false;
            return ResponseSlot::Stored;
        }
        copy_and_pad(self.next_response.as_mut_slice(), response, response.len(), self.pad);
        self.response_pending = true;
        ResponseSlot::Next
    }

    /// Starts a block: promotes the waiting response if no switch is in
    /// progress, and while a switch is in progress names the one
    /// segment that is replaced now. The switch ends with the last
    /// segment in use.
    pub fn begin_block(&mut self) -> (start: BlockStart)
        requires
            old(self)@.wf(),
        ensures
            start == old(self)@.block_start(),
            final(self)@ == old(self)@.after_block_start(),
            final(self)@.wf(),
    {
        let mut promoted = false;
        if !self.switching && self.response_pending {
            proof {
                assert(self.next_response@.subrange(0, self.next_response@.len() as int)
                    =~= self.next_response@);
            }
            let len: usize = self.next_response.len();
            copy_and_pad(
                self.stored_response.as_mut_slice(),
                self.next_response.as_slice(),
                len,
                self.pad,
            );
            proof {
                assert(self.stored_response@ =~= self.next_response@);
            }
            promoted = true;
            self.response_pending = false;
            self.switching = true;
        }
        let mut load_segment: Option<usize> = None;
        if self.switching {
            let active: usize = self.convolver.active_seg_count();
            if self.segment_to_load < active {
                load_segment = Some(self.segment_to_load);
                self.segment_to_load = self.segment_to_load + 1;
            }
            if self.segment_to_load >= active {
                self.switching = false;
                self.segment_to_load = 0;
            }
        }
        BlockStart { promoted, load_segment }
    }

    /// Handles the next chunk when `remaining` samples are left of a
    /// call: starts the block if the chunk begins one, and moves on past
    /// the chunk. There is none when no sample is left or no segment is
    /// in use.
    pub fn advance(&mut self, remaining: usize) -> (r: Option<StepwiseChunk>)
        requires
            old(self)@.wf(),
        ensures
            r == if remaining == 0 || old(self)@.convolver.active_seg_count == 0 {
                None
            } else {
                Some(old(self)@.next_chunk(remaining as nat))
            },
            final(self)@ == if remaining == 0 || old(self)@.convolver.active_seg_count == 0 {
                old(self)@
            } else {
                old(self)@.after_chunk(remaining as nat)
            },
            final(self)@.wf(),
    {
        match self.convolver.next_chunk(remaining) {
            None => None,
            Some(chunk) => {
                proof {
                    lemma_chunk(self@.convolver, remaining as nat);
                    lemma_block_start(self@);
                }
                let start: Option<BlockStart> = if self.convolver.input_buffer_fill() == 0 {
                    Some(self.begin_block())
                } else {
                    None
                };
                self.convolver.complete_chunk(chunk.len);
                Some(StepwiseChunk { start, chunk })
            },
        }
    }

    /// Cuts a call with `len` samples into chunks, one after the other as
    /// they are to be handled, each chunk that begins a block together
    /// with its block start, and moves on past them. The chunks come in
    /// a new vector; `advance` hands them out one by one.
    pub fn process(&mut self, len: usize) -> (chunks: Vec<StepwiseChunk>)
        requires
            old(self)@.wf(),
        ensures
            chunks@ == old(self)@.plan(len as nat),
            final(self)@ == old(self)@.after(len as nat),
            final(self)@.wf(),
    {
        let mut chunks: Vec<StepwiseChunk> = Vec::new();
        let mut processed: usize = 0;
        while processed < len
            invariant
                processed <= len,
                self@.wf(),
                chunks@ + self@.plan((len - processed) as nat) == old(self)@.plan(len as nat),
                self@.after((len - processed) as nat) == old(self)@.after(len as nat),
            decreases len - processed,
        {
            let ghost before = self@;
            match self.advance(len - processed) {
                None => {
                    processed = len;
                },
                Some(item) => {
                    proof {
                        lemma_chunk(before.convolver, (len - processed) as nat);
                        let rest = self@.plan((len - processed - item.chunk.len) as nat);
                        assert(chunks@.push(item) + rest =~= chunks@ + (seq![item] + rest));
                    }
                    chunks.push(item);
                    processed = processed + item.chunk.len;
                },
            }
        }
        chunks
    }

    /// Whether a switch is in progress.
    pub fn is_switching(&self) -> (r: bool)
        ensures
            r == self@.switching,
    {
        self.switching
    }

    /// Whether a response waits behind the switch in progress.
    pub fn is_response_pending(&self) -> (r: bool)
        ensures
            r == self@.response_pending,
    {
        self.response_pending
    }

    /// The partitioned convolver whose segments are replaced.
    pub fn convolver(&self) -> (r: &FFTConvolver)
        ensures
            r@ == self@.convolver,
    {
        &self.convolver
    }

    /// The response that is being loaded, or was loaded last, padded to
    /// the capacity.
    pub fn stored_response(&self) -> (r: &[T])
        ensures
            r@ == self@.stored_response,
    {
        self.stored_response.as_slice()
    }

    /// The buffer of the waiting response.
    pub fn next_response(&self) -> (r: &[T])
        ensures
            r@ == self@.next_response,
    {
        self.next_response.as_slice()
    }
}

/// Where the first chunk of a call is as long as that of a longer call,
/// the two calls begin alike.
proof fn lemma_same_first_chunk<T>(s: StepwiseState<T>, a: nat, b: nat)
    requires
        s.wf(),
        s.convolver.active_seg_count > 0,
        a > 0,
        s.convolver.next_chunk(a).len == s.convolver.next_chunk(a + b).len,
    ensures
        s.next_chunk(a) == s.next_chunk(a + b),
        s.after_chunk(a) == s.after_chunk(a + b),
{
    lemma_chunk(s.convolver, a);
    lemma_chunk(s.convolver, a + b);
}

/// A call that ends within the block that it begins in is one chunk, and
/// the call after it goes on within that block.
proof fn lemma_short_call<T>(s: StepwiseState<T>, a: nat, b: nat)
    requires
        s.wf(),
        s.convolver.active_seg_count > 0,
        a > 0,
        s.convolver.next_chunk(a).len != s.convolver.next_chunk(a + b).len,
    ensures
        s.after(a) == s.after_chunk(a),
        s.after_chunk(a).wf(),
        s.after_chunk(a).convolver.active_seg_count > 0,
        b > 0,
        s.after_chunk(a).next_chunk(b).start is None,
        s.after_chunk(a).next_chunk(b).chunk.len + a == s.next_chunk(a + b).chunk.len,
        s.after_chunk(a).after_chunk(b) == s.after_chunk(a + b),
{
    lemma_chunk(s.convolver, a);
    lemma_chunk(s.convolver, a + b);
    lemma_block_start(s);
    lemma_stepwise_chunk(s, a);
    let mid = s.after_chunk(a);
    let whole = s.convolver.next_chunk(a + b).len as nat;
    assert(s.after(a) == mid.after(0));
    lemma_chunk(mid.convolver, b);
    lemma_chunks_join(s.convolver, a, (whole - a) as nat);
}

/// The way in which the caller cuts the input into calls changes
/// nothing. A call with `a` samples and then one with `b` samples leave
/// the state that one call with `a + b` samples leaves: the segments are
/// replaced at the same samples.
pub proof fn lemma_stepwise_after_splits<T>(s: StepwiseState<T>, a: nat, b: nat)
    requires
        s.wf(),
    ensures
        s.after(a).after(b) == s.after(a + b),
    decreases a,
{
    if a == 0 || s.convolver.active_seg_count == 0 {
    } else if s.convolver.next_chunk(a).len == s.convolver.next_chunk(a + b).len {
        lemma_same_first_chunk(s, a, b);
        lemma_stepwise_chunk(s, a);
        lemma_chunk(s.convolver, a);
        let rest = (a - s.next_chunk(a).chunk.len) as nat;
        lemma_stepwise_after_splits(s.after_chunk(a), rest, b);
    } else {
        lemma_short_call(s, a, b);
    }
}

/// Whether `segment` holds the new response while block number `block`,
/// counted from 0 at the update, is handled: one of the blocks up to
/// that one has replaced it.
pub open spec fn holds_new<T>(s: StepwiseState<T>, block: nat, segment: nat) -> bool {
    exists|k: nat|
        k <= block && (#[trigger] s.after_blocks(k)).block_start().load_segment == Some(
            segment as usize,
        )
}

/// After an update between two blocks, the blocks replace the segments
/// in index order, one segment each, and the switch ends with the last
/// segment in use.
pub proof fn lemma_loads_in_order<T>(s: StepwiseState<T>, blocks: nat)
    requires
        s.wf(),
        s.switching,
        !s.response_pending,
        s.segment_to_load == 0,
        s.convolver.input_buffer_fill == 0,
        s.convolver.active_seg_count > 0,
    ensures
        s.after_blocks(blocks).wf(),
        s.after_blocks(blocks).convolver.active_seg_count == s.convolver.active_seg_count,
        s.after_blocks(blocks).convolver.block_size == s.convolver.block_size,
        s.after_blocks(blocks).convolver.input_buffer_fill == 0,
        s.after_blocks(blocks).stored_response == s.stored_response,
        !s.after_blocks(blocks).response_pending,
        blocks < s.convolver.active_seg_count ==> {
            &&& s.after_blocks(blocks).switching
            &&& s.after_blocks(blocks).segment_to_load == blocks
            &&& s.after_blocks(blocks).block_start().load_segment == Some(blocks as usize)
        },
        blocks >= s.convolver.active_seg_count ==> {
            &&& !s.after_blocks(blocks).switching
            &&& s.after_blocks(blocks).block_start().load_segment is None
        },
    decreases blocks,
{
    lemma_segment_count(s.convolver.capacity, s.convolver.block_size);
    if blocks > 0 {
        lemma_loads_in_order(s, (blocks - 1) as nat);
        let before = s.after_blocks((blocks - 1) as nat);
        let size = s.convolver.block_size;
        lemma_block_start(before);
        lemma_chunk(before.convolver, size);
        lemma_stepwise_chunk(before, size);
        let next = before.after_chunk(size);
        assert(before.next_chunk(size).chunk.len == size);
        assert(before.after(size) == next.after(0));
        assert(next.after(0) == next);
    }
}

/// Stepwise replacement acts as a gate on the input. While block number
/// `block` after the update is handled, `segment` holds the new response
/// if and only if `segment <= block`. The segment meets the input of
/// `segment` blocks earlier, so it holds the new response exactly when
/// the input that it meets was pushed at or after the update: each input
/// block is convolved with the old response throughout, or with the new
/// one throughout.
pub proof fn lemma_stepwise_gates_input<T>(s: StepwiseState<T>, block: nat, segment: nat)
    requires
        s.wf(),
        s.switching,
        !s.response_pending,
        s.segment_to_load == 0,
        s.convolver.input_buffer_fill == 0,
        segment < s.convolver.active_seg_count,
    ensures
        holds_new(s, block, segment) <==> segment <= block,
{
    lemma_segment_count(s.convolver.capacity, s.convolver.block_size);
    if segment <= block {
        lemma_loads_in_order(s, segment);
        assert(s.after_blocks(segment).block_start().load_segment == Some(segment as usize));
    }
    if holds_new(s, block, segment) {
        let k = choose|k: nat|
            k <= block && (#[trigger] s.after_blocks(k)).block_start().load_segment == Some(
                segment as usize,
            );
        lemma_loads_in_order(s, k);
    }
}

/// At most one response waits: of two updates during a switch, the
/// second replaces the first, and nothing is left of the first. The
/// response that is being loaded stays as it is.
pub proof fn lemma_pending_slot_is_single<T>(s: StepwiseState<T>, first: Seq<T>, second: Seq<T>)
    requires
        s.wf(),
        s.switching,
    ensures
        s.after_update(first).update_slot() == ResponseSlot::Next,
        s.after_update(first).after_update(second) == s.after_update(second),
        s.after_update(first).stored_response == s.stored_response,
{
}

} // verus!
