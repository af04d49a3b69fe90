//! Frequency-domain crossfade: two banks of segment spectra, A and B,
//! share one ring of input spectra. Both sums of products are formed for
//! each block. The block after an update is faded from one sum to the
//! other by an envelope that is applied to the spectra themselves, bin by
//! bin with the two neighbouring bins. A call of any length is cut into
//! chunks that lie within one block each; what the output is made from
//! is settled when a block starts and holds for all its chunks.

use crate::crossfade_convolver_td::Placement;
use crate::crossfader::{FadingState, Target};
use crate::fft_convolver::{
    copy_and_pad, filled, init_error, lemma_chunk, lemma_chunks_join, padded, Chunk, ConfigError,
    ConvolverState, FFTConvolver, MAX_BLOCK_SIZE,
};
use vstd::prelude::*;

verus! {

/// A bin of a spectrum of real input, reached from a position outside
/// the stored half by mirroring.
#[derive(Clone, Copy, Debug, PartialEq, Eq, Structural)]
pub struct MirroredBin {
    /// Index of the stored bin.
    pub index: usize,
    /// The value is the complex conjugate of the stored bin.
    pub conjugated: bool,
}

/// The bin at position `position` of a spectrum of which the bins
/// `0 .. size` are stored: the bin itself inside that range, the
/// conjugate of bin `-position` below it, and the conjugate of bin
/// `2 size - position - 2` above it.
pub open spec fn spec_mirrored_bin(position: int, size: nat) -> MirroredBin {
    if position < 0 {
        MirroredBin { index: (-position) as usize, conjugated: true }
    } else if position >= size {
        MirroredBin { index: (2 * size - position - 2) as usize, conjugated: true }
    } else {
        MirroredBin { index: position as usize, conjugated: false }
    }
}

/// The bin at position `position` of a spectrum of which the bins
/// `0 .. size` are stored.
pub fn mirrored_bin(position: i64, size: usize) -> (r: MirroredBin)
    requires
        2 <= size <= MAX_BLOCK_SIZE + 1,
        -(size - 1) <= position <= 2 * size - 2,
    ensures
        r == spec_mirrored_bin(position as int, size as nat),
        r.index < size,
{
    if position < 0 {
        MirroredBin { index: (-position) as usize, conjugated: true }
    } else if position >= size as i64 {
        MirroredBin { index: (2 * (size as i64) - position - 2) as usize, conjugated: true }
    } else {
        MirroredBin { index: position as usize, conjugated: false }
    }
}

/// The two bins beside bin `bin` that the envelope reads: the one below
/// and the one above.
pub fn neighbour_bins(bin: usize, size: usize) -> (r: (MirroredBin, MirroredBin))
    requires
        2 <= size <= MAX_BLOCK_SIZE + 1,
        bin < size,
    ensures
        r.0 == spec_mirrored_bin(bin - 1, size as nat),
        r.1 == spec_mirrored_bin(bin + 1, size as nat),
        r.0.index < size,
        r.1.index < size,
{
    (mirrored_bin(bin as i64 - 1, size), mirrored_bin(bin as i64 + 1, size))
}

/// Whether bin `bin` of `size` stored bins is real for real input: the
/// first and the last one are.
pub open spec fn spec_is_real_bin(bin: nat, size: nat) -> bool {
    bin == 0 || bin + 1 == size
}

/// Whether bin `bin` of `size` stored bins is real for real input. The
/// imaginary part that the envelope leaves there is rounding error.
pub fn is_real_bin(bin: usize, size: usize) -> (r: bool)
    requires
        bin < size,
    ensures
        r == spec_is_real_bin(bin as nat, size as nat),
{
    bin == 0 || bin == size - 1
}

/// The bin that a position is mirrored to lies in the stored range, and
/// a position in the stored range is its own bin: none but those outside
/// are conjugated.
pub proof fn lemma_mirrored_bin_is_stored(position: int, size: nat)
    requires
        2 <= size <= MAX_BLOCK_SIZE + 1,
        -(size - 1) <= position <= 2 * size - 2,
    ensures
        spec_mirrored_bin(position, size).index < size,
        spec_mirrored_bin(spec_mirrored_bin(position, size).index as int, size) == (MirroredBin {
            index: spec_mirrored_bin(position, size).index,
            conjugated: false,
        }),
        spec_mirrored_bin(position, size).conjugated <==> !(0 <= position < size),
{
}

/// The spectrum that goes to the inverse transform for a block.
#[derive(Clone, Copy, Debug, PartialEq, Eq, Structural)]
pub enum BlockOutput {
    /// The sum of products of this bank, as it is.
    Copy(Target),
    /// The two sums, faded from one bank to the other by the envelope.
    Crossfade { fade_out: Target, fade_in: Target },
}

/// A chunk of a call, and what its output is made from.
#[derive(Clone, Copy, Debug, PartialEq, Eq, Structural)]
pub struct FrequencyDomainChunk {
    /// The bank that takes the pending response first, if one does: at
    /// the start of a block with no fade to be done.
    pub install: Option<Target>,
    /// The samples that are handled.
    pub chunk: Chunk,
    /// The spectrum that the output of the block is made from.
    pub output: BlockOutput,
}

/// Mathematical state of a frequency-domain crossfade convolver.
pub struct FrequencyDomainState<T> {
    pub convolver: ConvolverState,
    pub fading_state: FadingState,
    /// What the output of the block in progress is made from.
    pub block_output: BlockOutput,
    /// The pending slot: the response that waits, if one does.
    pub stored_response: Seq<T>,
    /// The sample that pads a response to the capacity: silence.
    pub pad: T,
    pub response_pending: bool,
}

/// What the output of a block is made from that starts in the fading
/// state `state`: the bank that is reached, or the fade to the bank that
/// is approached.
pub open spec fn output_of(state: FadingState) -> BlockOutput {
    match state {
        FadingState::Reached(bank) => BlockOutput::Copy(bank),
        FadingState::Approaching(bank) => BlockOutput::Crossfade {
            fade_out: bank.other(),
            fade_in: bank,
        },
    }
}

impl<T> FrequencyDomainState<T> {
    /// The invariant of a frequency-domain crossfade convolver. Within a
    /// block that fades, the fade is still to be finished; within one
    /// that does not, the bank that sounds is reached, or the other one
    /// has taken a response and is faded to with the next block.
    pub open spec fn wf(self) -> bool {
        &&& self.convolver.wf()
        &&& self.stored_response.len() == self.convolver.capacity
        &&& self.convolver.input_buffer_fill > 0 ==> match self.block_output {
            BlockOutput::Crossfade { fade_out, fade_in } => self.fading_state
                == FadingState::Approaching(fade_in) && fade_out == fade_in.other(),
            BlockOutput::Copy(bank) => self.fading_state == FadingState::Reached(bank)
                || self.fading_state == FadingState::Approaching(bank.other()),
        }
    }

    /// The state after construction: bank A sounds, and the pending slot
    /// holds silence.
    pub open spec fn initial(block_size: nat, max_response_length: nat, pad: T) -> Self {
        FrequencyDomainState {
            convolver: ConvolverState::initial(block_size, max_response_length),
            fading_state: FadingState::Reached(Target::A),
            block_output: BlockOutput::Copy(Target::A),
            stored_response: padded(Seq::empty(), max_response_length, pad),
            pad,
            response_pending: false,
        }
    }

    /// Whether a fade is to be done or is being done.
    pub open spec fn crossfading(self) -> bool {
        self.fading_state is Approaching
    }

    /// The bank that is not reached or approached.
    pub open spec fn idle_bank(self) -> Target {
        self.fading_state.spec_target().other()
    }

    /// The state in which the fade to the bank that is not sounding is
    /// to be done.
    pub open spec fn swapped(self) -> Self {
        FrequencyDomainState {
            fading_state: FadingState::Approaching(self.idle_bank()),
            response_pending: false,
            ..self
        }
    }

    /// Where the response of the next `update` goes.
    pub open spec fn placement(self) -> Placement {
        if self.crossfading() {
            Placement::Pending
        } else {
            Placement::Install(self.idle_bank())
        }
    }

    /// The state after `update` with `response`. While a fade is to be
    /// done the pending slot holds it, padded to the capacity. Otherwise
    /// the block that starts next fades to the bank that took it; a
    /// block in progress goes on as it began.
    pub open spec fn after_update(self, response: Seq<T>) -> Self {
        if self.crossfading() {
            FrequencyDomainState {
                stored_response: padded(response, self.convolver.capacity, self.pad),
                response_pending: true,
                ..self
            }
        } else {
            self.swapped()
        }
    }

    /// The bank that takes the pending response at the start of the next
    /// block, if one does.
    pub open spec fn block_install(self) -> Option<Target> {
        if !self.crossfading() && self.response_pending {
            Some(self.idle_bank())
        } else {
            None
        }
    }

    /// The state after the start of a block: the pending response has
    /// been installed if no fade was to be done, and what the output of
    /// the block is made from is settled.
    pub open spec fn after_block_start(self) -> Self {
        let s = if !self.crossfading() && self.response_pending {
            self.swapped()
        } else {
            self
        };
        FrequencyDomainState { block_output: output_of(s.fading_state), ..s }
    }

    /// The state in which the next chunk is handled: the block has been
    /// started if the chunk begins one.
    pub open spec fn begun(self) -> Self {
        if self.convolver.input_buffer_fill == 0 {
            self.after_block_start()
        } else {
            self
        }
    }

    /// The next chunk when `remaining` samples are left of a call.
    pub open spec fn next_chunk(self, remaining: nat) -> FrequencyDomainChunk {
        FrequencyDomainChunk {
            install: if self.convolver.input_buffer_fill == 0 {
                self.block_install()
            } else {
                None
            },
            chunk: self.convolver.next_chunk(remaining),
            output: self.begun().block_output,
        }
    }

    /// The state after the next chunk when `remaining` samples are left
    /// of a call. With the chunk that completes a block that fades, the
    /// bank that was approached is reached.
    pub open spec fn after_chunk(self, remaining: nat) -> Self {
        let begun = self.begun();
        let chunk = self.convolver.next_chunk(remaining);
        FrequencyDomainState {
            convolver: self.convolver.after_chunk(chunk.len as nat),
            fading_state: if chunk.completes_block && begun.block_output is Crossfade {
                FadingState::Reached(begun.fading_state.spec_target())
            } else {
                begun.fading_state
            },
            ..begun
        }
    }

    /// The chunks that a call with `len` samples is cut into. With no
    /// segment in use there is none: the output is silence.
    pub open spec fn plan(self, len: nat) -> Seq<FrequencyDomainChunk>
        decreases len,
    {
        if len == 0 || self.convolver.active_seg_count == 0 || !self.wf() {
            Seq::empty()
        } else {
            let chunk = self.next_chunk(len);
            seq![chunk] + self.after_chunk(len).plan((len - chunk.chunk.len) as nat)
        }
    }

    /// The state after a call with `len` samples.
    pub open spec fn after(self, len: nat) -> Self
        decreases len,
    {
        if len == 0 || self.convolver.active_seg_count == 0 || !self.wf() {
            self
        } else {
            let chunk = self.next_chunk(len);
            self.after_chunk(len).after((len - chunk.chunk.len) as nat)
        }
    }
}

/// A chunk keeps the invariant and the sizes.
pub proof fn lemma_frequency_domain_chunk<T>(s: FrequencyDomainState<T>, remaining: nat)
    requires
        s.wf(),
        s.convolver.active_seg_count > 0,
        remaining > 0,
    ensures
        s.after_chunk(remaining).wf(),
        s.after_chunk(remaining).convolver.active_seg_count == s.convolver.active_seg_count,
        s.after_chunk(remaining).convolver.block_size == s.convolver.block_size,
{
    lemma_chunk(s.convolver, remaining);
}

/// Bookkeeping of a convolver that crossfades in the frequency domain.
#[derive(Clone, Debug)]
pub struct CrossfadeConvolverFrequencyDomain<T> {
    convolver: FFTConvolver,
    fading_state: FadingState,
    block_output: BlockOutput,
    stored_response: Vec<T>,
    pad: T,
    response_pending: bool,
}

impl<T> View for CrossfadeConvolverFrequencyDomain<T> {
    type V = FrequencyDomainState<T>;

    closed spec fn view(&self) -> FrequencyDomainState<T> {
        FrequencyDomainState {
            convolver: self.convolver@,
            fading_state: self.fading_state,
            block_output: self.block_output,
            stored_response: self.stored_response@,
            pad: self.pad,
            response_pending: self.response_pending,
        }
    }
}

impl<T: Copy> CrossfadeConvolverFrequencyDomain<T> {
    /// A crossfade convolver for responses of up to
    /// `max_response_length` samples, made for one of `response_len`
    /// samples in bank A, with blocks of `block_size` samples, rounded
    /// up to a power of two. `pad` is the sample of silence.
    pub fn init(
        response_len: usize,
        block_size: usize,
        max_response_length: usize,
        pad: T,
    ) -> (r: Result<Self, ConfigError>)
        requires
            block_size <= MAX_BLOCK_SIZE,
        ensures
            match r {
                Ok(c) => {
                    &&& init_error(
                        response_len as nat,
                        block_size as nat,
                        max_response_length as nat,
                    ) is None
                    &&& c@ == FrequencyDomainState::initial(
                        block_size as nat,
                        max_response_length as nat,
                        pad,
                    )
                    &&& c@.wf()
                },
                Err(e) => init_error(
                    response_len as nat,
                    block_size as nat,
                    max_response_length as nat,
                ) == Some(e),
            },
    {
        match FFTConvolver::init(response_len, block_size, max_response_length) {
            Ok(convolver) => Ok(
                CrossfadeConvolverFrequencyDomain {
                    convolver,
                    fading_state: FadingState::Reached(Target::A),
                    block_output: BlockOutput::Copy(Target::A),
                    stored_response: filled(max_response_length, pad),
                    pad,
                    response_pending: false,
                },
            ),
            Err(e) => Err(e),
        }
    }

    /// Whether a fade is to be done or is being done.
    pub fn is_crossfading(&self) -> (r: bool)
        ensures
            r == self@.crossfading(),
    {
        match self.fading_state {
            FadingState::Approaching(_) => true,
            FadingState::Reached(_) => false,
        }
    }

    /// Sets the fade to the bank that is not sounding and names it: it
    /// takes the new response.
    fn swap(&mut self) -> (bank: Target)
        requires
            !old(self)@.crossfading(),
        ensures
            bank == old(self)@.idle_bank(),
            final(self)@ == old(self)@.swapped(),
    {
        let bank = self.fading_state.target().opposite();
        self.fading_state = FadingState::Approaching(bank);
        self.response_pending = false;
        bank
    }

    /// Takes a new response and says where it goes. With no fade to be
    /// done the bank that is not sounding is to take it, and the block
    /// that starts next fades to it. Otherwise it is kept in the pending
    /// slot, padded to the capacity, where it replaces an earlier one
    /// that still waits.
    pub fn update(&mut self, response: &[T]) -> (placement: Placement)
        requires
            old(self)@.wf(),
            response@.len() <= old(self)@.convolver.capacity,
        ensures
            placement == old(self)@.placement(),
            final(self)@ == old(self)@.after_update(response@),
            final(self)@.wf(),
    {
        if !self.is_crossfading() {
            let bank = self.swap();
            return Placement::Install(bank);
        }
        proof {
            assert(response@.subrange(0, response@.len() as int) =~= response@);
        }
        copy_and_pad(self.stored_response.as_mut_slice(), response, response.len(), self.pad);
        self.response_pending = true;
        Placement::Pending
    }

    /// Handles the next chunk when `remaining` samples are left of a
    /// call, and moves on past it. A chunk that begins a block installs
    /// the pending response if no fade is to be done, and settles what
    /// the output of the block is made from; one that completes a block
    /// that fades ends the fade. There is none when no sample is left or
    /// no segment is in use: the output is silence.
    pub fn advance(&mut self, remaining: usize) -> (r: Option<FrequencyDomainChunk>)
        requires
            old(self)@.wf(),
        ensures
            r == if remaining == 0 || old(self)@.convolver.active_seg_count == 0 {
                None
            } else {
                Some(old(self)@.next_chunk(remaining as nat))
            },
            final(self)@ == if remaining == 0 || old(self)@.convolver.active_seg_count == 0 {
                old(self)@
            } else {
                old(self)@.after_chunk(remaining as nat)
            },
            final(self)@.wf(),
    {
        match self.convolver.next_chunk(remaining) {
            None => None,
            Some(chunk) => {
                proof {
                    lemma_chunk(self@.convolver, remaining as nat);
                }
                let mut install: Option<Target> = None;
                if chunk.starts_block {
                    if !self.is_crossfading() && self.response_pending {
                        install = Some(self.swap());
                    }
                    self.block_output = match self.fading_state {
                        FadingState::Reached(bank) => BlockOutput::Copy(bank),
                        FadingState::Approaching(bank) => BlockOutput::Crossfade {
                            fade_out: bank.opposite(),
                            fade_in: bank,
                        },
                    };
                }
                let output = self.block_output;
                if chunk.completes_block {
                    match output {
                        BlockOutput::Crossfade { fade_out: _, fade_in } => {
                            self.fading_state = FadingState::Reached(fade_in);
                        },
                        BlockOutput::Copy(_) => {},
                    }
                }
                self.convolver.complete_chunk(chunk.len);
                Some(FrequencyDomainChunk { install, chunk, output })
            },
        }
    }

    /// Cuts a call with `len` samples into chunks, one after the other as
    /// they are to be handled, and moves on past them. The chunks come in
    /// a new vector; `advance` hands them out one by one.
    pub fn process(&mut self, len: usize) -> (chunks: Vec<FrequencyDomainChunk>)
        requires
            old(self)@.wf(),
        ensures
            chunks@ == old(self)@.plan(len as nat),
            final(self)@ == old(self)@.after(len as nat),
            final(self)@.wf(),
    {
        let mut chunks: Vec<FrequencyDomainChunk> = Vec::new();
        let mut processed: usize = 0;
        while processed < len
            invariant
                processed <= len,
                self@.wf(),
                chunks@ + self@.plan((len - processed) as nat) == old(self)@.plan(len as nat),
                self@.after((len - processed) as nat) == old(self)@.after(len as nat),
            decreases len - processed,
        {
            let ghost before = self@;
            match self.advance(len - processed) {
                None => {
                    processed = len;
                },
                Some(item) => {
                    proof {
                        lemma_chunk(before.convolver, (len - processed) as nat);
                        let rest = self@.plan((len - processed - item.chunk.len) as nat);
                        assert(chunks@.push(item) + rest =~= chunks@ + (seq![item] + rest));
                    }
                    chunks.push(item);
                    processed = processed + item.chunk.len;
                },
            }
        }
        chunks
    }

    /// Whether a response waits in the pending slot.
    pub fn is_response_pending(&self) -> (r: bool)
        ensures
            r == self@.response_pending,
    {
        self.response_pending
    }

    /// Which bank sounds, or is faded to.
    pub fn fading_state(&self) -> (r: FadingState)
        ensures
            r == self@.fading_state,
    {
        self.fading_state
    }

    /// The sizes and the ring that both banks share.
    pub fn convolver(&self) -> (r: &FFTConvolver)
        ensures
            r@ == self@.convolver,
    {
        &self.convolver
    }

    /// The pending slot: the response that waits, padded to the
    /// capacity.
    pub fn stored_response(&self) -> (r: &[T])
        ensures
            r@ == self@.stored_response,
    {
        self.stored_response.as_slice()
    }
}

/// A fade takes one block: a block that starts with a fade to be done is
/// made from the fade of the two banks, and after it the bank that was
/// approached sounds. A block that starts with no fade to be done and
/// no response pending is made from the bank that sounds, and leaves it
/// sounding.
pub proof fn lemma_fade_takes_one_block<T>(s: FrequencyDomainState<T>)
    requires
        s.wf(),
        s.convolver.active_seg_count > 0,
        s.convolver.input_buffer_fill == 0,
    ensures
        ({
            let block = s.convolver.block_size;
            &&& s.plan(block) == seq![s.next_chunk(block)]
            &&& s.after(block).wf()
            &&& s.after(block).convolver.input_buffer_fill == 0
            &&& !s.after(block).crossfading()
            &&& s.crossfading() ==> {
                &&& s.next_chunk(block).output == (BlockOutput::Crossfade {
                    fade_out: s.idle_bank(),
                    fade_in: s.fading_state.spec_target(),
                })
                &&& s.after(block).fading_state == FadingState::Reached(
                    s.fading_state.spec_target(),
                )
            }
            &&& !s.crossfading() && !s.response_pending ==> {
                &&& s.next_chunk(block).output == BlockOutput::Copy(s.fading_state.spec_target())
                &&& s.after(block).fading_state == s.fading_state
            }
        }),
{
    let block = s.convolver.block_size;
    lemma_chunk(s.convolver, block);
    lemma_frequency_domain_chunk(s, block);
    let next = s.after_chunk(block);
    assert(s.after(block) == next.after(0));
    assert(s.plan(block) =~= seq![s.next_chunk(block)] + next.plan(0));
    assert(s.plan(block) =~= seq![s.next_chunk(block)]);
}

/// What a block's output is made from is settled when the block starts:
/// an update within a block changes nothing for the chunks that are left
/// of it, and the fade is done with the block after it.
pub proof fn lemma_update_waits_for_block_start<T>(
    s: FrequencyDomainState<T>,
    response: Seq<T>,
    remaining: nat,
)
    requires
        s.wf(),
        s.convolver.active_seg_count > 0,
        s.convolver.input_buffer_fill > 0,
        remaining > 0,
    ensures
        s.after_update(response).wf(),
        s.after_update(response).next_chunk(remaining).output == s.block_output,
        s.after_update(response).next_chunk(remaining).install is None,
        !s.crossfading() ==> s.after_update(response).after_chunk(remaining).fading_state
            == FadingState::Approaching(s.idle_bank()),
{
    lemma_chunk(s.convolver, remaining);
}

/// Where the first chunk of a call is as long as that of a longer call,
/// the two calls begin alike.
proof fn lemma_same_first_chunk<T>(s: FrequencyDomainState<T>, a: nat, b: nat)
    requires
        s.wf(),
        s.convolver.active_seg_count > 0,
        a > 0,
        s.convolver.next_chunk(a).len == s.convolver.next_chunk(a + b).len,
    ensures
        s.next_chunk(a) == s.next_chunk(a + b),
        s.after_chunk(a) == s.after_chunk(a + b),
{
    lemma_chunk(s.convolver, a);
    lemma_chunk(s.convolver, a + b);
}

/// A call that ends within the block that it begins in is one chunk, and
/// the call after it goes on within that block.
proof fn lemma_short_call<T>(s: FrequencyDomainState<T>, a: nat, b: nat)
    requires
        s.wf(),
        s.convolver.active_seg_count > 0,
        a > 0,
        s.convolver.next_chunk(a).len != s.convolver.next_chunk(a + b).len,
    ensures
        s.after(a) == s.after_chunk(a),
        s.after_chunk(a).wf(),
        b > 0,
        s.after_chunk(a).after_chunk(b) == s.after_chunk(a + b),
{
    lemma_chunk(s.convolver, a);
    lemma_chunk(s.convolver, a + b);
    lemma_frequency_domain_chunk(s, a);
    let mid = s.after_chunk(a);
    let whole = s.convolver.next_chunk(a + b).len as nat;
    assert(s.after(a) == mid.after(0));
    lemma_chunk(mid.convolver, b);
    lemma_chunks_join(s.convolver, a, (whole - a) as nat);
}

/// The way in which the caller cuts the input into calls changes
/// nothing. A call with `a` samples and then one with `b` samples leave
/// the state that one call with `a + b` samples leaves.
pub proof fn lemma_frequency_domain_after_splits<T>(s: FrequencyDomainState<T>, a: nat, b: nat)
    requires
        s.wf(),
    ensures
        s.after(a).after(b) == s.after(a + b),
    decreases a,
{
    if a == 0 || s.convolver.active_seg_count == 0 {
    } else if s.convolver.next_chunk(a).len == s.convolver.next_chunk(a + b).len {
        lemma_same_first_chunk(s, a, b);
        lemma_frequency_domain_chunk(s, a);
        lemma_chunk(s.convolver, a);
        let rest = (a - s.next_chunk(a).chunk.len) as nat;
        lemma_frequency_domain_after_splits(s.after_chunk(a), rest, b);
    } else {
        lemma_short_call(s, a, b);
    }
}

/// At most one response is pending: of two updates while a fade is to be
/// done, the second replaces the first, and nothing is left of the
/// first.
pub proof fn lemma_pending_slot_is_single<T>(
    s: FrequencyDomainState<T>,
    first: Seq<T>,
    second: Seq<T>,
)
    requires
        s.wf(),
        s.crossfading(),
    ensures
        s.after_update(first).placement() == Placement::Pending,
        s.after_update(first).after_update(second) == s.after_update(second),
{
}

} // verus!
