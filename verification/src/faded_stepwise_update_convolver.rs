//! Faded stepwise update: the spectrum of each segment moves from the old
//! impulse response to the new one in equal steps, and each segment
//! starts one block after the segment before it.
//!
//! Segment `i` meets the input block that is `i` blocks old. With the
//! weight of segment `i` at block `t` depending on `t - i` alone, each
//! input block is convolved with one blend of the two responses for all
//! its segments: the input is faded from one response to the other. No
//! segment is mixed with the new response before its own segment of that
//! response was transformed, and when the transition is over every
//! segment holds the new response.

use crate::fft_convolver::{
    copy_and_pad, filled, init_error, lemma_chunk, lemma_chunks_join, lemma_segment_count, padded,
    Chunk, ConfigError, ConvolverState, FFTConvolver, MAX_BLOCK_SIZE,
};
use vstd::arithmetic::div_mod::*;
use vstd::prelude::*;

verus! {

/// Largest accepted capacity and largest accepted length of a transition,
/// in samples.
pub const MAX_TRANSITION_SAMPLES: usize = 0x3fff_ffff;

/// An impulse response in a buffer of fixed capacity: the response
/// itself, then silence.
pub struct Response<T> {
    /// The buffer, all of it.
    pub samples: Seq<T>,
    /// Number of samples of the response.
    pub effective_length: nat,
    /// The sample of silence.
    pub pad: T,
}

impl<T> Response<T> {
    /// Number of samples that the buffer holds.
    pub open spec fn capacity(self) -> nat {
        self.samples.len()
    }

    /// The response fits its buffer, and silence follows it.
    pub open spec fn wf(self) -> bool {
        &&& self.effective_length <= self.capacity()
        &&& forall|i: int|
            self.effective_length <= i < self.capacity() ==> self.samples[i] == self.pad
    }

    /// The buffer with no response in it.
    pub open spec fn empty(capacity: nat, pad: T) -> Response<T> {
        Response { samples: padded(Seq::empty(), capacity, pad), effective_length: 0, pad }
    }

    /// The same buffer, holding `response`.
    pub open spec fn holding(self, response: Seq<T>) -> Response<T> {
        Response {
            samples: padded(response, self.capacity(), self.pad),
            effective_length: response.len(),
            ..self
        }
    }
}

/// An impulse response in a buffer of fixed capacity: the response
/// itself, then silence. `T` is the type of a sample.
#[derive(Clone, Debug)]
pub struct ImpulseResponse<T> {
    samples: Vec<T>,
    effective_length: usize,
    pad: T,
}

impl<T> View for ImpulseResponse<T> {
    type V = Response<T>;

    closed spec fn view(&self) -> Response<T> {
        Response {
            samples: self.samples@,
            effective_length: self.effective_length as nat,
            pad: self.pad,
        }
    }
}

impl<T: Copy> ImpulseResponse<T> {
    /// A buffer of `max_response_length` samples with no response in it.
    /// `pad` is the sample of silence.
    pub fn new(max_response_length: usize, pad: T) -> (r: Self)
        ensures
            r@ == Response::empty(max_response_length as nat, pad),
            r@.wf(),
    {
        ImpulseResponse { samples: filled(max_response_length, pad), effective_length: 0, pad }
    }

    /// A buffer of `max_response_length` samples that holds `response`.
    pub fn init(response: &[T], max_response_length: usize, pad: T) -> (r: Self)
        requires
            response@.len() <= max_response_length,
        ensures
            r@ == Response::empty(max_response_length as nat, pad).holding(response@),
            r@.wf(),
    {
        let mut ir = Self::new(max_response_length, pad);
        ir.update(response);
        ir
    }

    /// Takes `response` into the buffer, in place of what it held.
    pub fn update(&mut self, response: &[T])
        requires
            response@.len() <= old(self)@.capacity(),
        ensures
            final(self)@ == old(self)@.holding(response@),
            final(self)@.wf(),
    {
        proof {
            assert(response@.subrange(0, response@.len() as int) =~= response@);
        }
        let response_len: usize = response.len();
        copy_and_pad(self.samples.as_mut_slice(), response, response_len, self.pad);
        self.effective_length = response_len;
    }

    /// Number of samples that the buffer holds.
    pub fn capacity(&self) -> (r: usize)
        ensures
            r == self@.capacity(),
    {
        self.samples.len()
    }

    /// Number of samples of the response; silence follows.
    pub fn effective_length(&self) -> (r: usize)
        ensures
            r == self@.effective_length,
    {
        self.effective_length
    }

    /// The buffer, all of it.
    pub fn samples(&self) -> (r: &[T])
        ensures
            r@ == self@.samples,
    {
        self.samples.as_slice()
    }
}

/// Share of the new response in a segment's spectrum: `numerator /
/// denominator`, between 0 and 1. The old response has the rest.
#[derive(Clone, Copy, Debug, PartialEq, Eq, Structural)]
pub struct Weight {
    pub numerator: usize,
    pub denominator: usize,
}

/// Number of steps in which a segment moves to the new response in a
/// transition of `fade_steps` steps: a transition of no step is done as
/// one of one step, in which each segment moves at once when its turn
/// comes.
pub open spec fn effective_steps(fade_steps: nat) -> nat {
    if fade_steps == 0 {
        1
    } else {
        fade_steps
    }
}

/// The weight of `segment` at the block start with counter `counter` of
/// a transition of `fade_steps` steps: `(counter + 1 - segment) /
/// fade_steps`, kept between 0 and 1. A segment whose turn has not come,
/// which is one above `counter`, has the weight 0.
pub open spec fn spec_weight(counter: nat, fade_steps: nat, segment: nat) -> Weight {
    let steps = effective_steps(fade_steps);
    let index = counter + 1 - segment;
    Weight {
        numerator: (if index < 0 {
            0
        } else if index > steps {
            steps as int
        } else {
            index
        }) as usize,
        denominator: steps as usize,
    }
}

/// The weight of `segment` at the block start with counter `counter` of
/// a transition of `fade_steps` steps.
pub fn weight(counter: usize, fade_steps: usize, segment: usize) -> (r: Weight)
    ensures
        r == spec_weight(counter as nat, fade_steps as nat, segment as nat),
        r.numerator <= r.denominator,
        r.denominator >= 1,
        r.numerator > 0 ==> segment <= counter,
{
    let steps: usize = if fade_steps == 0 {
        1
    } else {
        fade_steps
    };
    if segment > counter {
        Weight { numerator: 0, denominator: steps }
    } else {
        let behind: usize = counter - segment;
        if behind >= steps {
            Weight { numerator: steps, denominator: steps }
        } else {
            Weight { numerator: behind + 1, denominator: steps }
        }
    }
}

/// The buffer that takes a response handed to `update`.
#[derive(Clone, Copy, Debug, PartialEq, Eq, Structural)]
pub enum FadedSlot {
    /// The response that the transition moves to.
    Next,
    /// The one response that waits behind a transition in progress.
    Queued,
}

/// What is done at the start of a block, before its samples are handled.
#[derive(Clone, Copy, Debug, PartialEq, Eq, Structural)]
pub struct FadeStep {
    /// The waiting response becomes the next one, and a transition to it
    /// begins with this block.
    pub promoted: bool,
    /// A transition is in progress: every segment in use is mixed anew,
    /// segment `i` with `weight(counter, fade_steps, i)`.
    pub switching: bool,
    /// Number of blocks that the transition has started before this one.
    pub counter: usize,
    /// Number of steps in which a segment moves to the new response;
    /// with none, a segment moves at once when its turn comes.
    pub fade_steps: usize,
    /// The segment of the next response whose spectrum is computed first.
    pub transform: Option<usize>,
    /// The last segment has reached the new response: the two responses
    /// and the two banks of spectra change places, and the transition is
    /// over.
    pub completes: bool,
}

/// Mathematical state of a faded stepwise updater.
pub struct FadedState<T> {
    pub convolver: ConvolverState,
    /// The response that sounds, or that the transition moves from.
    pub current_response: Response<T>,
    /// The response that the transition moves to.
    pub next_response: Response<T>,
    /// The response that waits, if one does.
    pub queued_response: Response<T>,
    pub transition_samples: nat,
    pub fade_steps: nat,
    pub transition_counter: nat,
    pub switching: bool,
    pub response_pending: bool,
}

impl<T> FadedState<T> {
    /// The invariant of a faded stepwise updater.
    pub open spec fn wf(self) -> bool {
        &&& self.convolver.wf()
        &&& self.current_response.wf()
        &&& self.next_response.wf()
        &&& self.queued_response.wf()
        &&& self.current_response.capacity() == self.convolver.capacity
        &&& self.next_response.capacity() == self.convolver.capacity
        &&& self.queued_response.capacity() == self.convolver.capacity
        &&& self.convolver.capacity <= self.transition_samples <= MAX_TRANSITION_SAMPLES
        &&& self.fade_steps <= self.transition_samples
        &&& if self.switching {
            self.transition_counter == 0 || self.transition_counter + 2 <= effective_steps(
                self.fade_steps,
            ) + self.convolver.active_seg_count
        } else {
            self.transition_counter == 0
        }
    }

    /// The state after construction with `response`.
    pub open spec fn initial(
        response: Seq<T>,
        max_response_length: nat,
        block_size: nat,
        transition_samples: nat,
        pad: T,
    ) -> FadedState<T> {
        let empty = Response::empty(max_response_length, pad);
        FadedState {
            convolver: ConvolverState::initial(block_size, max_response_length),
            current_response: empty.holding(response),
            next_response: empty,
            queued_response: empty,
            transition_samples: if transition_samples < max_response_length {
                max_response_length
            } else {
                transition_samples
            },
            fade_steps: 0,
            transition_counter: 0,
            switching: false,
            response_pending: false,
        }
    }

    /// Number of steps of a transition between the current and the next
    /// response: the blocks that fit into what the transition has left
    /// after the longer of the two.
    pub open spec fn steps(self) -> nat {
        let longer = if self.current_response.effective_length
            < self.next_response.effective_length {
            self.next_response.effective_length
        } else {
            self.current_response.effective_length
        };
        ((self.transition_samples - longer) / (self.convolver.block_size as int)) as nat
    }

    /// The state in which a transition to the next response has begun.
    pub open spec fn initiated(self) -> FadedState<T> {
        FadedState { switching: true, response_pending: false, fade_steps: self.steps(), ..self }
    }

    /// The buffer that takes the response of the next `update`.
    pub open spec fn update_slot(self) -> FadedSlot {
        if self.switching {
            FadedSlot::Queued
        } else {
            FadedSlot::Next
        }
    }

    /// The state after `update` with `response`: the buffer that took
    /// it holds it, padded to the capacity.
    pub open spec fn after_update(self, response: Seq<T>) -> FadedState<T> {
        if self.switching {
            FadedState {
                queued_response: self.queued_response.holding(response),
                response_pending: true,
                ..self
            }
        } else {
            FadedState { next_response: self.next_response.holding(response), ..self }.initiated()
        }
    }

    /// Whether the next block starts by promoting the waiting response.
    pub open spec fn promotes(self) -> bool {
        !self.switching && self.response_pending
    }

    /// The state after the waiting response was promoted, if it is to be.
    pub open spec fn promoted(self) -> FadedState<T> {
        if self.promotes() {
            FadedState {
                next_response: self.queued_response,
                queued_response: self.next_response,
                ..self
            }.initiated()
        } else {
            self
        }
    }

    /// The response whose segment a block start that has been done
    /// transforms. It is the next response as it was then. If the step
    /// completed the transition, the responses have changed places since
    /// and it is the current one now.
    pub open spec fn transform_source(self, step: FadeStep) -> Response<T> {
        if step.completes {
            self.current_response
        } else {
            self.next_response
        }
    }

    /// Whether the transition is over once the block start with the
    /// present counter has mixed the segments: the last segment in use
    /// has the weight 1, or no segment is in use.
    pub open spec fn completes(self) -> bool {
        self.convolver.active_seg_count == 0 || self.transition_counter + 2 >= effective_steps(
            self.fade_steps,
        ) + self.convolver.active_seg_count
    }

    /// What the next block starts with.
    pub open spec fn block_step(self) -> FadeStep {
        let s = self.promoted();
        if s.switching {
            FadeStep {
                promoted: self.promotes(),
                switching: true,
                counter: s.transition_counter as usize,
                fade_steps: s.fade_steps as usize,
                transform: if s.transition_counter < s.convolver.active_seg_count {
                    Some(s.transition_counter as usize)
                } else {
                    None
                },
                completes: s.completes(),
            }
        } else {
            FadeStep {
                promoted: false,
                switching: false,
                counter: 0,
                fade_steps: 0,
                transform: None,
                completes: false,
            }
        }
    }

    /// The state after the start of the next block.
    pub open spec fn after_block_start(self) -> FadedState<T> {
        let s = self.promoted();
        if !s.switching {
            s
        } else if s.completes() {
            FadedState {
                current_response: s.next_response,
                next_response: s.current_response,
                switching: false,
                transition_counter: 0,
                ..s
            }
        } else {
            FadedState { transition_counter: s.transition_counter + 1, ..s }
        }
    }
}

/// A chunk of a call, and what is done before it if it starts a block.
#[derive(Clone, Copy, Debug, PartialEq, Eq, Structural)]
pub struct FadedChunk {
    /// The block start, for a chunk that begins a block.
    pub step: Option<FadeStep>,
    /// The samples that are handled then.
    pub chunk: Chunk,
}

impl<T> FadedState<T> {
    /// The state in which the next chunk is handled: the block has been
    /// started if the chunk begins one.
    pub open spec fn begun(self) -> FadedState<T> {
        if self.convolver.input_buffer_fill == 0 {
            self.after_block_start()
        } else {
            self
        }
    }

    /// The next chunk when `remaining` samples are left of a call.
    pub open spec fn next_chunk(self, remaining: nat) -> FadedChunk {
        FadedChunk {
            step: if self.convolver.input_buffer_fill == 0 {
                Some(self.block_step())
            } else {
                None
            },
            chunk: self.convolver.next_chunk(remaining),
        }
    }

    /// The state after the next chunk when `remaining` samples are left
    /// of a call.
    pub open spec fn after_chunk(self, remaining: nat) -> FadedState<T> {
        FadedState {
            convolver: self.convolver.after_chunk(
                self.convolver.next_chunk(remaining).len as nat,
            ),
            ..self.begun()
        }
    }

    /// The chunks that a call with `len` samples is cut into. With no
    /// segment in use there is none: the output is silence.
    pub open spec fn plan(self, len: nat) -> Seq<FadedChunk>
        decreases len,
    {
        if len == 0 || self.convolver.active_seg_count == 0 || !self.wf() {
            Seq::empty()
        } else {
            let chunk = self.next_chunk(len);
            seq![chunk] + self.after_chunk(len).plan((len - chunk.chunk.len) as nat)
        }
    }

    /// The state after a call with `len` samples.
    pub open spec fn after(self, len: nat) -> FadedState<T>
        decreases len,
    {
        if len == 0 || self.convolver.active_seg_count == 0 || !self.wf() {
            self
        } else {
            let chunk = self.next_chunk(len);
            self.after_chunk(len).after((len - chunk.chunk.len) as nat)
        }
    }
}

/// A block start keeps the invariant and leaves the convolver alone.
pub proof fn lemma_block_start<T>(s: FadedState<T>)
    requires
        s.wf(),
    ensures
        s.after_block_start().wf(),
        s.after_block_start().convolver == s.convolver,
        s.after_block_start().transition_samples == s.transition_samples,
{
    lemma_steps_bounded(s);
    if s.promotes() {
        let swapped = FadedState::<T> {
            next_response: s.queued_response,
            queued_response: s.next_response,
            ..s
        };
        lemma_steps_bounded(swapped);
    }
}

/// A transition has no more steps than it has samples.
pub proof fn lemma_steps_bounded<T>(s: FadedState<T>)
    requires
        s.convolver.wf(),
        s.current_response.effective_length <= s.transition_samples,
        s.next_response.effective_length <= s.transition_samples,
    ensures
        s.steps() <= s.transition_samples,
{
    let longer = if s.current_response.effective_length < s.next_response.effective_length {
        s.next_response.effective_length
    } else {
        s.current_response.effective_length
    };
    let left = s.transition_samples - longer;
    lemma_div_is_ordered_by_denominator(left, 1, s.convolver.block_size as int);
    lemma_div_basics(left);
}

/// Bookkeeping of a convolver whose response is replaced segment by
/// segment, each segment fading from the old response to the new one.
#[derive(Clone, Debug)]
pub struct FadedStepwiseUpdateConvolver<T> {
    convolver: FFTConvolver,
    current_response: ImpulseResponse<T>,
    next_response: ImpulseResponse<T>,
    queued_response: ImpulseResponse<T>,
    transition_samples: usize,
    fade_steps: usize,
    transition_counter: usize,
    switching: bool,
    response_pending: bool,
}

impl<T> View for FadedStepwiseUpdateConvolver<T> {
    type V = FadedState<T>;

    closed spec fn view(&self) -> FadedState<T> {
        FadedState {
            convolver: self.convolver@,
            current_response: self.current_response@,
            next_response: self.next_response@,
            queued_response: self.queued_response@,
            transition_samples: self.transition_samples as nat,
            fade_steps: self.fade_steps as nat,
            transition_counter: self.transition_counter as nat,
            switching: self.switching,
            response_pending: self.response_pending,
        }
    }
}

impl<T: Copy> FadedStepwiseUpdateConvolver<T> {
    /// An updater for responses of up to `max_response_length` samples
    /// that holds `response`, with blocks of `block_size` samples,
    /// rounded up to a power of two. A transition takes
    /// `transition_samples` samples, and no fewer than the capacity.
    /// `pad` is the sample of silence.
    pub fn new(
        response: &[T],
        max_response_length: usize,
        block_size: usize,
        transition_samples: usize,
        pad: T,
    ) -> (r: Result<Self, ConfigError>)
        requires
            block_size <= MAX_BLOCK_SIZE,
            max_response_length <= MAX_TRANSITION_SAMPLES,
            transition_samples <= MAX_TRANSITION_SAMPLES,
        ensures
            match r {
                Ok(c) => {
                    &&& init_error(
                        response@.len(),
                        block_size as nat,
                        max_response_length as nat,
                    ) is None
                    &&& c@ == FadedState::initial(
                        response@,
                        max_response_length as nat,
                        block_size as nat,
                        transition_samples as nat,
                        pad,
                    )
                    &&& c@.wf()
                },
                Err(e) => init_error(
                    response@.len(),
                    block_size as nat,
                    max_response_length as nat,
                ) == Some(e),
            },
    {
        match FFTConvolver::init(response.len(), block_size, max_response_length) {
            Ok(convolver) => Ok(
                FadedStepwiseUpdateConvolver {
                    convolver,
                    current_response: ImpulseResponse::init(response, max_response_length, pad),
                    next_response: ImpulseResponse::new(max_response_length, pad),
                    queued_response: ImpulseResponse::new(max_response_length, pad),
                    transition_samples: if transition_samples < max_response_length {
                        max_response_length
                    } else {
                        transition_samples
                    },
                    fade_steps: 0,
                    transition_counter: 0,
                    switching: false,
                    response_pending: false,
                },
            ),
            Err(e) => Err(e),
        }
    }

    /// `new`, with the sizes in the order that all convolvers share, and
    /// with the shortest transition: one of `max_response_length`
    /// samples.
    pub fn init(
        response: &[T],
        max_block_size: usize,
        max_response_length: usize,
        pad: T,
    ) -> (r: Result<Self, ConfigError>)
        requires
            max_block_size <= MAX_BLOCK_SIZE,
            max_response_length <= MAX_TRANSITION_SAMPLES,
        ensures
            match r {
                Ok(c) => {
                    &&& init_error(
                        response@.len(),
                        max_block_size as nat,
                        max_response_length as nat,
                    ) is None
                    &&& c@ == FadedState::initial(
                        response@,
                        max_response_length as nat,
                        max_block_size as nat,
                        max_response_length as nat,
                        pad,
                    )
                    &&& c@.wf()
                },
                Err(e) => init_error(
                    response@.len(),
                    max_block_size as nat,
                    max_response_length as nat,
                ) == Some(e),
            },
    {
        Self::new(response, max_response_length, max_block_size, max_response_length, pad)
    }

    /// Begins the transition from the current to the next response.
    fn initiate_switch(&mut self)
        requires
            old(self)@.wf(),
            !old(self)@.switching,
        ensures
            final(self)@ == old(self)@.initiated(),
            final(self)@.wf(),
    {
        proof {
            lemma_steps_bounded(self@);
        }
        let current_len: usize = self.current_response.effective_length();
        let next_len: usize = self.next_response.effective_length();
        let longer: usize = if current_len < next_len {
            next_len
        } else {
            current_len
        };
        self.switching = true;
        self.response_pending = false;
        self.fade_steps = (self.transition_samples - longer) / self.convolver.block_size();
    }

    /// Takes a new response into one of the buffers, padded to the
    /// capacity, and says which. With no transition in progress it is
    /// the next response, and the transition to it begins with the next
    /// block. During a transition it is the one waiting response, which
    /// replaces an earlier one that still waits.
    pub fn update(&mut self, response: &[T]) -> (slot: FadedSlot)
        requires
            old(self)@.wf(),
            response@.len() <= old(self)@.convolver.capacity,
        ensures
            slot == old(self)@.update_slot(),
            final(self)@ == old(self)@.after_update(response@),
            final(self)@.wf(),
    {
        if !self.switching {
            self.next_response.update(response);
            self.initiate_switch();
            return FadedSlot::Next;
        }
        self.queued_response.update(response);
        self.response_pending = true;
        FadedSlot::Queued
    }

    /// Starts a block. A waiting response is promoted if no transition is
    /// in progress. During a transition the step names the segment of
    /// the next response that is transformed now and the counter from
    /// which the weights of all segments follow, and says whether the
    /// transition is over after this mixing.
    pub fn begin_block(&mut self) -> (step: FadeStep)
        requires
            old(self)@.wf(),
        ensures
            step == old(self)@.block_step(),
            final(self)@ == old(self)@.after_block_start(),
            final(self)@.wf(),
            step.switching ==> final(self)@.transform_source(step) == old(
                self,
            )@.promoted().next_response,
    {
        proof {
            lemma_block_start(self@);
            lemma_segment_count(self@.convolver.capacity, self@.convolver.block_size);
        }
        let mut promoted = false;
        if !self.switching && self.response_pending {
            core::mem::swap(&mut self.next_response, &mut self.queued_response);
            self.initiate_switch();
            promoted = true;
        }
        if !self.switching {
            return FadeStep {
                promoted: false,
                switching: false,
                counter: 0,
                fade_steps: 0,
                transform: None,
                completes: false,
            };
        }
        let active: usize = self.convolver.active_seg_count();
        let counter: usize = self.transition_counter;
        let transform: Option<usize> = if counter < active {
            Some(counter)
        } else {
            None
        };
        let steps: usize = if self.fade_steps == 0 {
            1
        } else {
            self.fade_steps
        };
        let completes: bool = active == 0 || counter + 2 >= steps + active;
        if completes {
            core::mem::swap(&mut self.current_response, &mut self.next_response);
            self.switching = false;
            self.transition_counter = 0;
        } else {
            self.transition_counter = counter + 1;
        }
        FadeStep {
            promoted,
            switching: true,
            counter,
            fade_steps: self.fade_steps,
            transform,
            completes,
        }
    }

    /// Handles the next chunk when `remaining` samples are left of a
    /// call: starts the block if the chunk begins one, and moves on past
    /// the chunk. There is none when no sample is left or no segment is
    /// in use.
    pub fn advance(&mut self, remaining: usize) -> (r: Option<FadedChunk>)
        requires
            old(self)@.wf(),
        ensures
            r == if remaining == 0 || old(self)@.convolver.active_seg_count == 0 {
                None
            } else {
                Some(old(self)@.next_chunk(remaining as nat))
            },
            final(self)@ == if remaining == 0 || old(self)@.convolver.active_seg_count == 0 {
                old(self)@
            } else {
                old(self)@.after_chunk(remaining as nat)
            },
            final(self)@.wf(),
    {
        match self.convolver.next_chunk(remaining) {
            None => None,
            Some(chunk) => {
                proof {
                    lemma_chunk(self@.convolver, remaining as nat);
                    lemma_block_start(self@);
                }
                let step: Option<FadeStep> = if self.convolver.input_buffer_fill() == 0 {
                    Some(self.begin_block())
                } else {
                    None
                };
                self.convolver.complete_chunk(chunk.len);
                Some(FadedChunk { step, chunk })
            },
        }
    }

    /// Cuts a call with `len` samples into chunks, one after the other as
    /// they are to be handled, each chunk that begins a block together
    /// with its block start, and moves on past them. The chunks come in
    /// a new vector; `advance` hands them out one by one.
    pub fn process(&mut self, len: usize) -> (chunks: Vec<FadedChunk>)
        requires
            old(self)@.wf(),
        ensures
            chunks@ == old(self)@.plan(len as nat),
            final(self)@ == old(self)@.after(len as nat),
            final(self)@.wf(),
    {
        let mut chunks: Vec<FadedChunk> = Vec::new();
        let mut processed: usize = 0;
        while processed < len
            invariant
                processed <= len,
                self@.wf(),
                chunks@ + self@.plan((len - processed) as nat) == old(self)@.plan(len as nat),
                self@.after((len - processed) as nat) == old(self)@.after(len as nat),
            decreases len - processed,
        {
            let ghost before = self@;
            match self.advance(len - processed) {
                None => {
                    processed = len;
                },
                Some(item) => {
                    proof {
                        lemma_chunk(before.convolver, (len - processed) as nat);
                        let rest = self@.plan((len - processed - item.chunk.len) as nat);
                        assert(chunks@.push(item) + rest =~= chunks@ + (seq![item] + rest));
                    }
                    chunks.push(item);
                    processed = processed + item.chunk.len;
                },
            }
        }
        chunks
    }

    /// Whether a transition is in progress.
    pub fn is_switching(&self) -> (r: bool)
        ensures
            r == self@.switching,
    {
        self.switching
    }

    /// Whether a response waits behind the transition in progress.
    pub fn is_response_pending(&self) -> (r: bool)
        ensures
            r == self@.response_pending,
    {
        self.response_pending
    }

    /// Number of steps of the transition in progress, or of the last one.
    pub fn fade_steps(&self) -> (r: usize)
        ensures
            r == self@.fade_steps,
    {
        self.fade_steps
    }

    /// Length of a transition, in samples.
    pub fn transition_samples(&self) -> (r: usize)
        ensures
            r == self@.transition_samples,
    {
        self.transition_samples
    }

    /// The partitioned convolver whose segments are mixed.
    pub fn convolver(&self) -> (r: &FFTConvolver)
        ensures
            r@ == self@.convolver,
    {
        &self.convolver
    }

    /// The response that sounds, or that the transition moves from.
    pub fn current_response(&self) -> (r: &ImpulseResponse<T>)
        ensures
            r@ == self@.current_response,
    {
        &self.current_response
    }

    /// The response that the transition moves to.
    pub fn next_response(&self) -> (r: &ImpulseResponse<T>)
        ensures
            r@ == self@.next_response,
    {
        &self.next_response
    }

    /// The response whose segment the block start `step`, which has been
    /// done, transforms.
    pub fn transform_source(&self, step: &FadeStep) -> (r: &ImpulseResponse<T>)
        ensures
            r@ == self@.transform_source(*step),
    {
        if step.completes {
            &self.current_response
        } else {
            &self.next_response
        }
    }

    /// The buffer of the waiting response.
    pub fn queued_response(&self) -> (r: &ImpulseResponse<T>)
        ensures
            r@ == self@.queued_response,
    {
        &self.queued_response
    }
}

/// A chunk keeps the invariant and the sizes.
pub proof fn lemma_faded_chunk<T>(s: FadedState<T>, remaining: nat)
    requires
        s.wf(),
        s.convolver.active_seg_count > 0,
        remaining > 0,
    ensures
        s.after_chunk(remaining).wf(),
        s.after_chunk(remaining).convolver.active_seg_count == s.convolver.active_seg_count,
        s.after_chunk(remaining).convolver.block_size == s.convolver.block_size,
{
    lemma_chunk(s.convolver, remaining);
    lemma_block_start(s);
}

/// A call keeps the invariant and the sizes.
pub proof fn lemma_faded_after_keeps_invariant<T>(s: FadedState<T>, len: nat)
    requires
        s.wf(),
    ensures
        s.after(len).wf(),
        s.after(len).convolver.active_seg_count == s.convolver.active_seg_count,
        s.after(len).convolver.block_size == s.convolver.block_size,
    decreases len,
{
    if len == 0 || s.convolver.active_seg_count == 0 {
    } else {
        lemma_chunk(s.convolver, len);
        lemma_faded_chunk(s, len);
        let chunk = s.next_chunk(len);
        lemma_faded_after_keeps_invariant(s.after_chunk(len), (len - chunk.chunk.len) as nat);
    }
}

/// The block starts among a sequence of chunks, in order.
pub open spec fn block_steps(chunks: Seq<FadedChunk>) -> Seq<FadeStep>
    decreases chunks.len(),
{
    if chunks.len() == 0 {
        Seq::empty()
    } else {
        let rest = block_steps(chunks.subrange(1, chunks.len() as int));
        match chunks[0].step {
            Some(step) => seq![step] + rest,
            None => rest,
        }
    }
}

/// The block starts of a first chunk followed by other chunks.
proof fn lemma_block_steps_cons(first: FadedChunk, rest: Seq<FadedChunk>)
    ensures
        block_steps(seq![first] + rest) == match first.step {
            Some(step) => seq![step] + block_steps(rest),
            None => block_steps(rest),
        },
{
    let all = seq![first] + rest;
    assert(all.subrange(1, all.len() as int) =~= rest);
}

/// Where the first chunk of a call is as long as that of a longer call,
/// the two calls begin alike.
proof fn lemma_same_first_chunk<T>(s: FadedState<T>, a: nat, b: nat)
    requires
        s.wf(),
        s.convolver.active_seg_count > 0,
        a > 0,
        s.convolver.next_chunk(a).len == s.convolver.next_chunk(a + b).len,
    ensures
        s.next_chunk(a) == s.next_chunk(a + b),
        s.after_chunk(a) == s.after_chunk(a + b),
{
    lemma_chunk(s.convolver, a);
    lemma_chunk(s.convolver, a + b);
}

/// A call that ends within the block that it begins in is one chunk, and
/// the call after it goes on within that block.
proof fn lemma_short_call<T>(s: FadedState<T>, a: nat, b: nat)
    requires
        s.wf(),
        s.convolver.active_seg_count > 0,
        a > 0,
        s.convolver.next_chunk(a).len != s.convolver.next_chunk(a + b).len,
    ensures
        s.next_chunk(a).chunk.len == a,
        s.after(a) == s.after_chunk(a),
        s.plan(a) == seq![s.next_chunk(a)],
        s.after_chunk(a).wf(),
        s.after_chunk(a).convolver.active_seg_count > 0,
        b > 0,
        s.after_chunk(a).next_chunk(b).step is None,
        s.next_chunk(a + b).step == s.next_chunk(a).step,
        s.after_chunk(a).next_chunk(b).chunk.len + a == s.next_chunk(a + b).chunk.len,
        s.after_chunk(a).after_chunk(b) == s.after_chunk(a + b),
{
    lemma_chunk(s.convolver, a);
    lemma_chunk(s.convolver, a + b);
    lemma_block_start(s);
    lemma_faded_chunk(s, a);
    let mid = s.after_chunk(a);
    let whole = s.convolver.next_chunk(a + b).len as nat;
    assert(s.after(a) == mid.after(0));
    assert(s.plan(a) =~= seq![s.next_chunk(a)] + mid.plan(0));
    assert(s.plan(a) =~= seq![s.next_chunk(a)]);
    lemma_chunk(mid.convolver, b);
    lemma_chunks_join(s.convolver, a, (whole - a) as nat);
}

/// The way in which the caller cuts the input into calls changes
/// nothing. A call with `a` samples and then one with `b` samples leave
/// the state that one call with `a + b` samples leaves.
pub proof fn lemma_faded_after_splits<T>(s: FadedState<T>, a: nat, b: nat)
    requires
        s.wf(),
    ensures
        s.after(a).after(b) == s.after(a + b),
    decreases a,
{
    if a == 0 || s.convolver.active_seg_count == 0 {
    } else if s.convolver.next_chunk(a).len == s.convolver.next_chunk(a + b).len {
        lemma_same_first_chunk(s, a, b);
        lemma_faded_chunk(s, a);
        lemma_chunk(s.convolver, a);
        let rest = (a - s.next_chunk(a).chunk.len) as nat;
        lemma_faded_after_splits(s.after_chunk(a), rest, b);
    } else {
        lemma_short_call(s, a, b);
    }
}

/// The way in which the caller cuts the input into calls changes
/// nothing. A call with `a` samples and then one with `b` samples start
/// the blocks that one call with `a + b` samples starts, with the same
/// steps: the spectra are mixed with the same weights at the same
/// samples.
pub proof fn lemma_faded_steps_split<T>(s: FadedState<T>, a: nat, b: nat)
    requires
        s.wf(),
    ensures
        block_steps(s.plan(a)) + block_steps(s.after(a).plan(b)) == block_steps(s.plan(a + b)),
    decreases a,
{
    if a == 0 || s.convolver.active_seg_count == 0 {
        assert(block_steps(s.plan(a)) =~= Seq::<FadeStep>::empty());
        assert(block_steps(s.plan(a)) + block_steps(s.after(a).plan(b)) =~= block_steps(
            s.plan(a + b),
        ));
    } else if s.convolver.next_chunk(a).len == s.convolver.next_chunk(a + b).len {
        lemma_same_first_chunk(s, a, b);
        lemma_faded_chunk(s, a);
        lemma_chunk(s.convolver, a);
        let first = s.next_chunk(a);
        let next = s.after_chunk(a);
        let rest = (a - first.chunk.len) as nat;
        lemma_faded_steps_split(next, rest, b);
        lemma_block_steps_cons(first, next.plan(rest));
        lemma_block_steps_cons(first, next.plan(rest + b));
        assert(s.plan(a) == seq![first] + next.plan(rest));
        assert(s.plan(a + b) == seq![first] + next.plan(rest + b));
        assert(s.after(a) == next.after(rest));
        assert(block_steps(s.plan(a)) + block_steps(s.after(a).plan(b)) =~= block_steps(
            s.plan(a + b),
        ));
    } else {
        lemma_short_call(s, a, b);
        let first = s.next_chunk(a);
        let whole = s.next_chunk(a + b);
        let mid = s.after_chunk(a);
        let second = mid.next_chunk(b);
        let last = s.after_chunk(a + b);
        let rest = (a + b - whole.chunk.len) as nat;
        lemma_block_steps_cons(first, Seq::<FadedChunk>::empty());
        assert(seq![first] + Seq::<FadedChunk>::empty() =~= seq![first]);
        lemma_block_steps_cons(second, last.plan(rest));
        lemma_block_steps_cons(whole, last.plan(rest));
        assert(mid.plan(b) == seq![second] + last.plan(rest));
        assert(s.plan(a + b) == seq![whole] + last.plan(rest));
        assert(block_steps(Seq::<FadedChunk>::empty()) =~= Seq::<FadeStep>::empty());
        assert(block_steps(s.plan(a)) + block_steps(s.after(a).plan(b)) =~= block_steps(
            s.plan(a + b),
        ));
    }
}

impl<T> FadedState<T> {
    /// The state after `calls` calls of one block each.
    pub open spec fn after_blocks(self, calls: nat) -> FadedState<T>
        decreases calls,
    {
        if calls == 0 {
            self
        } else {
            self.after_blocks((calls - 1) as nat).after(self.convolver.block_size)
        }
    }

    /// Number of blocks that a transition takes: the last segment starts
    /// `active_seg_count - 1` blocks after the first and takes the steps
    /// of the transition to reach the new response.
    pub open spec fn transition_blocks(self) -> nat {
        if self.convolver.active_seg_count == 0 {
            1
        } else {
            (effective_steps(self.fade_steps) + self.convolver.active_seg_count - 1) as nat
        }
    }
}

/// Share of the new response in what the input block pushed `block`
/// blocks after the update is convolved with: nothing before the
/// update, one step more for each block from the update on, and all of
/// it once the steps are done.
pub open spec fn input_gain(fade_steps: nat, block: int) -> Weight {
    let steps = effective_steps(fade_steps);
    Weight {
        numerator: (if block < 0 {
            0
        } else if block + 1 > steps {
            steps as int
        } else {
            block + 1
        }) as usize,
        denominator: steps as usize,
    }
}

/// Faded stepwise replacement acts as a ramp on the input. At the block
/// start with counter `counter`, the weight of `segment` is the gain of
/// the input block that the segment meets, which is the block pushed
/// `counter - segment` blocks after the update. This holds of every
/// number of steps; with none, or one, the ramp is a gate.
pub proof fn lemma_weight_fades_input(counter: nat, fade_steps: nat, segment: nat)
    requires
        fade_steps <= MAX_TRANSITION_SAMPLES,
    ensures
        spec_weight(counter, fade_steps, segment) == input_gain(fade_steps, counter - segment),
        spec_weight(counter, fade_steps, segment).numerator > 0 <==> segment <= counter,
        spec_weight(counter, fade_steps, segment).numerator <= effective_steps(fade_steps),
        spec_weight(counter, fade_steps, segment).denominator == effective_steps(fade_steps),
        fade_steps <= 1 ==> spec_weight(counter, fade_steps, segment) == (Weight {
            numerator: if segment <= counter {
                1
            } else {
                0
            },
            denominator: 1,
        }),
{
}

/// A transition is over with the block start at which every segment in
/// use has the weight 1, and not before.
pub proof fn lemma_completes_when_all_new<T>(s: FadedState<T>)
    requires
        s.wf(),
        s.switching,
        s.convolver.active_seg_count > 0,
    ensures
        s.completes() <==> (forall|segment: nat|
            segment < s.convolver.active_seg_count ==> (#[trigger] spec_weight(
                s.transition_counter,
                s.fade_steps,
                segment,
            )).numerator == spec_weight(s.transition_counter, s.fade_steps, segment).denominator),
{
    let last = (s.convolver.active_seg_count - 1) as nat;
    if !s.completes() {
        assert(spec_weight(s.transition_counter, s.fade_steps, last).numerator != spec_weight(
            s.transition_counter,
            s.fade_steps,
            last,
        ).denominator);
    }
}

/// After an update on an updater at rest, with calls of one block each:
/// block number `block`, counted from 0 at the update, starts with the
/// counter `block`, computes the spectrum of segment `block` of the next
/// response while there is one, and the transition is over with block
/// number `transition_blocks() - 1`. No later block mixes anything.
pub proof fn lemma_fade_schedule<T>(s: FadedState<T>, block: nat)
    requires
        s.wf(),
        s.switching,
        s.transition_counter == 0,
        !s.response_pending,
        s.convolver.input_buffer_fill == 0,
        s.convolver.active_seg_count > 0,
    ensures
        s.after_blocks(block).wf(),
        s.after_blocks(block).convolver.input_buffer_fill == 0,
        s.after_blocks(block).convolver.active_seg_count == s.convolver.active_seg_count,
        s.after_blocks(block).convolver.block_size == s.convolver.block_size,
        s.after_blocks(block).fade_steps == s.fade_steps,
        !s.after_blocks(block).response_pending,
        block < s.transition_blocks() ==> {
            &&& s.after_blocks(block).switching
            &&& s.after_blocks(block).transition_counter == block
            &&& s.after_blocks(block).current_response == s.current_response
            &&& s.after_blocks(block).next_response == s.next_response
            &&& s.after_blocks(block).block_step() == (FadeStep {
                promoted: false,
                switching: true,
                counter: block as usize,
                fade_steps: s.fade_steps as usize,
                transform: if block < s.convolver.active_seg_count {
                    Some(block as usize)
                } else {
                    None
                },
                completes: block + 1 == s.transition_blocks(),
            })
        },
        block >= s.transition_blocks() ==> {
            &&& !s.after_blocks(block).switching
            &&& !s.after_blocks(block).block_step().switching
            &&& s.after_blocks(block).current_response == s.next_response
            &&& s.after_blocks(block).next_response == s.current_response
        },
    decreases block,
{
    lemma_segment_count(s.convolver.capacity, s.convolver.block_size);
    if block > 0 {
        lemma_fade_schedule(s, (block - 1) as nat);
        let before = s.after_blocks((block - 1) as nat);
        let size = s.convolver.block_size;
        lemma_block_start(before);
        lemma_chunk(before.convolver, size);
        lemma_faded_chunk(before, size);
        let next = before.after_chunk(size);
        assert(before.next_chunk(size).chunk.len == size);
        assert(before.after(size) == next.after(0));
        assert(next.after(0) == next);
    }
}

/// No segment is mixed with the new response before its own segment of
/// that response was transformed in this transition, whatever the number
/// of steps. In block number `block` after the update, a segment with a
/// weight above 0 is one of the segments up to `block`, and it was
/// transformed from the next response at the start of the block of its
/// own number. With the last block of the transition every segment in
/// use has the weight 1, so that the convolver holds the new response,
/// all of it.
pub proof fn lemma_mixed_segments_are_transformed<T>(s: FadedState<T>, block: nat, segment: nat)
    requires
        s.wf(),
        s.switching,
        s.transition_counter == 0,
        !s.response_pending,
        s.convolver.input_buffer_fill == 0,
        segment < s.convolver.active_seg_count,
        block < s.transition_blocks(),
    ensures
        ({
            let step = s.after_blocks(block).block_step();
            let mixed = spec_weight(step.counter as nat, step.fade_steps as nat, segment);
            &&& step.switching
            &&& mixed.numerator > 0 ==> {
                &&& segment <= block
                &&& s.after_blocks(segment).block_step().transform == Some(segment as usize)
                &&& s.after_blocks(segment).next_response == s.next_response
            }
            &&& block + 1 == s.transition_blocks() ==> {
                &&& step.completes
                &&& mixed.numerator == mixed.denominator
                &&& segment <= block
            }
        }),
{
    lemma_segment_count(s.convolver.capacity, s.convolver.block_size);
    lemma_fade_schedule(s, block);
    if segment <= block {
        lemma_fade_schedule(s, segment);
    }
}

/// At most one response waits: of two updates during a transition, the
/// second replaces the first, and nothing is left of the first. The two
/// responses of the transition stay as they are.
pub proof fn lemma_pending_slot_is_single<T>(s: FadedState<T>, first: Seq<T>, second: Seq<T>)
    requires
        s.wf(),
        s.switching,
    ensures
        s.after_update(first).update_slot() == FadedSlot::Queued,
        s.after_update(first).after_update(second) == s.after_update(second),
        s.after_update(first).current_response == s.current_response,
        s.after_update(first).next_response == s.next_response,
{
    assert(s.queued_response.holding(first).capacity() == s.queued_response.capacity());
}

/// A buffer that has taken a response holds it, then silence up to the
/// capacity, whatever it held before.
pub proof fn lemma_response_is_padded<T>(r: Response<T>, response: Seq<T>)
    requires
        response.len() <= r.capacity(),
    ensures
        r.holding(response).wf(),
        r.holding(response).capacity() == r.capacity(),
        r.holding(response).effective_length == response.len(),
        r.holding(response).samples.subrange(0, response.len() as int) == response,
        forall|i: int|
            response.len() <= i < r.capacity() ==> r.holding(response).samples[i] == r.pad,
{
    assert(r.holding(response).samples.subrange(0, response.len() as int) =~= response);
}

} // verus!
