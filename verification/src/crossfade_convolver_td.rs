//! Time-domain crossfade: two inner convolvers run side by side, one with
//! the old impulse response and one with the new, and a crossfader mixes
//! their outputs sample by sample.

use crate::crossfader::{
    lemma_fade_holds_blends_lands, take, Crossfader, CrossfaderState, FadingState, Mix,
    RaisedCosineMixer, Target, MAX_SAMPLES,
};
use crate::fft_convolver::{copy_and_pad, filled, init_error, padded, ConfigError};
use vstd::prelude::*;

verus! {

/// Where a response handed to `update` goes.
#[derive(Clone, Copy, Debug, PartialEq, Eq, Structural)]
pub enum Placement {
    /// Into the convolver, or bank of spectra, of this stream: the one
    /// that is not sounding. The fade to it begins.
    Install(Target),
    /// Into the one pending slot, from where it is installed once the
    /// fade in progress is over.
    Pending,
}

/// Mathematical state of a time-domain crossfade convolver.
pub struct TimeDomainState<T> {
    pub crossfader: CrossfaderState,
    /// The pending slot: the response that waits, if one does.
    pub stored_response: Seq<T>,
    /// The sample that pads a response to the capacity: silence.
    pub pad: T,
    pub response_pending: bool,
}

/// The smaller of two numbers.
pub open spec fn smaller(a: nat, b: nat) -> nat {
    if a < b {
        a
    } else {
        b
    }
}

/// What the next `n` calls of `mix` hand out, in order.
pub open spec fn mixes(s: CrossfaderState, n: nat) -> Seq<Mix> {
    Seq::new(n, |i: int| s.after_mixes(i as nat).mixed())
}

impl<T> TimeDomainState<T> {
    /// The invariant of a time-domain crossfade convolver.
    pub open spec fn wf(self) -> bool {
        self.crossfader.wf()
    }

    /// Number of samples that a response has at most.
    pub open spec fn capacity(self) -> nat {
        self.stored_response.len()
    }

    /// The state after construction: stream A sounds, and the pending
    /// slot holds silence.
    pub open spec fn initial(
        max_response_length: nat,
        max_buffer_size: nat,
        crossfade_samples: nat,
        pad: T,
    ) -> TimeDomainState<T> {
        TimeDomainState {
            crossfader: CrossfaderState::initial(
                crossfade_samples as int,
                smaller(max_buffer_size, max_response_length) as int,
            ),
            stored_response: padded(Seq::empty(), max_response_length, pad),
            pad,
            response_pending: false,
        }
    }

    /// Whether a fade is in progress.
    pub open spec fn crossfading(self) -> bool {
        self.crossfader.fading_state is Approaching
    }

    /// The stream that is not reached or approached.
    pub open spec fn idle_stream(self) -> Target {
        self.crossfader.fading_state.spec_target().other()
    }

    /// The state in which the fade to the stream that is not sounding
    /// has begun.
    pub open spec fn swapped(self) -> TimeDomainState<T> {
        TimeDomainState {
            crossfader: self.crossfader.after_fade_into(self.idle_stream()),
            response_pending: false,
            ..self
        }
    }

    /// Where the response of the next `update` goes.
    pub open spec fn placement(self) -> Placement {
        if self.crossfading() {
            Placement::Pending
        } else {
            Placement::Install(self.idle_stream())
        }
    }

    /// The state after `update` with `response`. During a fade the
    /// pending slot holds it, padded to the capacity.
    pub open spec fn after_update(self, response: Seq<T>) -> TimeDomainState<T> {
        if self.crossfading() {
            TimeDomainState {
                stored_response: padded(response, self.capacity(), self.pad),
                response_pending: true,
                ..self
            }
        } else {
            self.swapped()
        }
    }

    /// The stream whose convolver takes the pending response at the
    /// start of the next call, if one does.
    pub open spec fn block_install(self) -> Option<Target> {
        if !self.crossfading() && self.response_pending {
            Some(self.idle_stream())
        } else {
            None
        }
    }

    /// The state after the start of the next call.
    pub open spec fn after_block_start(self) -> TimeDomainState<T> {
        if !self.crossfading() && self.response_pending {
            self.swapped()
        } else {
            self
        }
    }

    /// The state after a call with `len` samples.
    pub open spec fn after(self, len: nat) -> TimeDomainState<T> {
        let started = self.after_block_start();
        TimeDomainState { crossfader: started.crossfader.after_mixes(len), ..started }
    }
}

/// Bookkeeping of a convolver that crossfades in the time domain.
#[derive(Clone, Debug)]
pub struct CrossfadeConvolverTimeDomain<T> {
    crossfader: Crossfader<RaisedCosineMixer>,
    stored_response: Vec<T>,
    pad: T,
    response_pending: bool,
}

impl<T> View for CrossfadeConvolverTimeDomain<T> {
    type V = TimeDomainState<T>;

    closed spec fn view(&self) -> TimeDomainState<T> {
        TimeDomainState {
            crossfader: self.crossfader@,
            stored_response: self.stored_response@,
            pad: self.pad,
            response_pending: self.response_pending,
        }
    }
}

impl<T: Copy> CrossfadeConvolverTimeDomain<T> {
    /// A crossfade convolver for responses of up to
    /// `max_response_length` samples that fades over `crossfade_samples`
    /// samples with the raised-cosine curve. Before a fade the old
    /// stream is held for `max_buffer_size` samples, and for no more
    /// than `max_response_length`. `pad` is the sample of silence.
    pub fn new(
        max_response_length: usize,
        max_buffer_size: usize,
        crossfade_samples: usize,
        pad: T,
    ) -> (r: Self)
        requires
            1 <= crossfade_samples <= MAX_SAMPLES,
            smaller(max_buffer_size as nat, max_response_length as nat) <= MAX_SAMPLES,
        ensures
            r@ == TimeDomainState::initial(
                max_response_length as nat,
                max_buffer_size as nat,
                crossfade_samples as nat,
                pad,
            ),
            r@.wf(),
    {
        let hold_samples: usize = if max_buffer_size < max_response_length {
            max_buffer_size
        } else {
            max_response_length
        };
        CrossfadeConvolverTimeDomain {
            crossfader: Crossfader::new(RaisedCosineMixer, crossfade_samples, hold_samples),
            stored_response: filled(max_response_length, pad),
            pad,
            response_pending: false,
        }
    }

    /// A crossfade convolver for responses of up to
    /// `max_response_length` samples, made for a response of
    /// `response_len` samples: it fades over that many samples, and over
    /// one sample for an empty response, after holding the old stream
    /// for `max_block_size` samples, and for no more than
    /// `response_len`.
    pub fn init(
        response_len: usize,
        max_block_size: usize,
        max_response_length: usize,
        pad: T,
    ) -> (r: Result<Self, ConfigError>)
        requires
            response_len <= MAX_SAMPLES,
        ensures
            match r {
                Ok(c) => {
                    &&& init_error(
                        response_len as nat,
                        max_block_size as nat,
                        max_response_length as nat,
                    ) is None
                    &&& c@ == (TimeDomainState {
                        stored_response: padded(Seq::empty(), max_response_length as nat, pad),
                        ..TimeDomainState::initial(
                            response_len as nat,
                            max_block_size as nat,
                            if response_len == 0 {
                                1
                            } else {
                                response_len as nat
                            },
                            pad,
                        )
                    })
                    &&& c@.wf()
                },
                Err(e) => init_error(
                    response_len as nat,
                    max_block_size as nat,
                    max_response_length as nat,
                ) == Some(e),
            },
    {
        if response_len > max_response_length {
            return Err(ConfigError::ResponseTooLong);
        }
        if max_block_size == 0 {
            return Err(ConfigError::ZeroBlockSize);
        }
        let hold_samples: usize = if max_block_size < response_len {
            max_block_size
        } else {
            response_len
        };
        let crossfade_samples: usize = if response_len == 0 {
            1
        } else {
            response_len
        };
        Ok(
            CrossfadeConvolverTimeDomain {
                crossfader: Crossfader::new(RaisedCosineMixer, crossfade_samples, hold_samples),
                stored_response: filled(max_response_length, pad),
                pad,
                response_pending: false,
            },
        )
    }

    /// Whether a fade is in progress.
    pub fn is_crossfading(&self) -> (r: bool)
        ensures
            r == self@.crossfading(),
    {
        match self.crossfader.fading_state() {
            FadingState::Approaching(_) => true,
            FadingState::Reached(_) => false,
        }
    }

    /// Begins the fade to the stream that is not sounding and names it:
    /// its convolver takes the new response.
    fn swap(&mut self) -> (stream: Target)
        requires
            old(self)@.wf(),
        ensures
            stream == old(self)@.idle_stream(),
            final(self)@ == old(self)@.swapped(),
            final(self)@.wf(),
    {
        let stream = self.crossfader.fading_state().target().opposite();
        self.crossfader.fade_into(stream);
        self.response_pending = false;
        stream
    }

    /// Takes a new response and says where it goes. With no fade in
    /// progress the convolver that is not sounding is to take it, and
    /// the fade to it begins, while the old response goes on sounding.
    /// During a fade it is kept in the pending slot, padded to the
    /// capacity, where it replaces an earlier one that still waits.
    pub fn update(&mut self, response: &[T]) -> (placement: Placement)
        requires
            old(self)@.wf(),
            response@.len() <= old(self)@.capacity(),
        ensures
            placement == old(self)@.placement(),
            final(self)@ == old(self)@.after_update(response@),
            final(self)@.wf(),
    {
        if !self.is_crossfading() {
            let stream = self.swap();
            return Placement::Install(stream);
        }
        proof {
            assert(response@.subrange(0, response@.len() as int) =~= response@);
        }
        copy_and_pad(self.stored_response.as_mut_slice(), response, response.len(), self.pad);
        self.response_pending = true;
        Placement::Pending
    }

    /// Starts a call: with no fade in progress and a response pending,
    /// names the stream whose convolver is to take what the pending slot
    /// holds, and begins the fade to that stream.
    pub fn begin_block(&mut self) -> (install: Option<Target>)
        requires
            old(self)@.wf(),
        ensures
            install == old(self)@.block_install(),
            final(self)@ == old(self)@.after_block_start(),
            final(self)@.wf(),
    {
        if !self.is_crossfading() && self.response_pending {
            let stream = self.swap();
            Some(stream)
        } else {
            None
        }
    }

    /// Decides what is handed out for the next pair of output samples of
    /// the two convolvers.
    pub fn mix(&mut self) -> (r: Mix)
        requires
            old(self)@.wf(),
        ensures
            r == old(self)@.crossfader.mixed(),
            final(self)@ == (TimeDomainState {
                crossfader: old(self)@.crossfader.after_mix(),
                ..old(self)@
            }),
            final(self)@.wf(),
    {
        self.crossfader.mix()
    }

    /// Handles a call with `len` samples: the stream whose convolver
    /// takes the pending response first, if one does, and what is handed
    /// out for each pair of output samples of the two convolvers. The
    /// mixes come in a new vector; `begin_block` and `mix` do the same
    /// one by one.
    pub fn process(&mut self, len: usize) -> (r: (Option<Target>, Vec<Mix>))
        requires
            old(self)@.wf(),
        ensures
            r.0 == old(self)@.block_install(),
            r.1@ == mixes(old(self)@.after_block_start().crossfader, len as nat),
            final(self)@ == old(self)@.after(len as nat),
            final(self)@.wf(),
    {
        let install = self.begin_block();
        let ghost started = self@;
        let mut out: Vec<Mix> = Vec::new();
        let mut i: usize = 0;
        while i < len
            invariant
                i <= len,
                self@.wf(),
                out@ == mixes(started.crossfader, i as nat),
                self@ == (TimeDomainState {
                    crossfader: started.crossfader.after_mixes(i as nat),
                    ..started
                }),
            decreases len - i,
        {
            let mixed = self.crossfader.mix();
            out.push(mixed);
            i = i + 1;
            proof {
                assert(out@ =~= mixes(started.crossfader, i as nat));
            }
        }
        (install, out)
    }

    /// Whether a response waits in the pending slot.
    pub fn is_response_pending(&self) -> (r: bool)
        ensures
            r == self@.response_pending,
    {
        self.response_pending
    }

    /// Where the crossfader stands.
    pub fn fading_state(&self) -> (r: FadingState)
        ensures
            r == self@.crossfader.fading_state,
    {
        self.crossfader.fading_state()
    }

    /// Number of samples that a response has at most.
    pub fn capacity(&self) -> (r: usize)
        ensures
            r == self@.capacity(),
    {
        self.stored_response.len()
    }

    /// The pending slot: the response that waits, padded to the
    /// capacity.
    pub fn stored_response(&self) -> (r: &[T])
        ensures
            r@ == self@.stored_response,
    {
        self.stored_response.as_slice()
    }
}

/// At most one response is pending: of two updates during a fade, the
/// second replaces the first, and nothing is left of the first.
pub proof fn lemma_pending_slot_is_single<T>(s: TimeDomainState<T>, first: Seq<T>, second: Seq<T>)
    requires
        s.wf(),
        s.crossfading(),
    ensures
        s.after_update(first).placement() == Placement::Pending,
        s.after_update(first).after_update(second) == s.after_update(second),
{
    assert(s.after_update(first).capacity() == s.capacity());
}

/// The pending response is installed by the first call that starts
/// with no fade in progress, and the fade to it begins then.
pub proof fn lemma_pending_response_is_installed<T>(s: TimeDomainState<T>)
    requires
        s.wf(),
        s.response_pending,
        !s.crossfading(),
    ensures
        s.block_install() == Some(s.idle_stream()),
        s.after_block_start().stored_response == s.stored_response,
        !s.after_block_start().response_pending,
        s.after_block_start().crossfader.fading_state.spec_target() == s.idle_stream(),
{
}

/// After an update on a convolver at rest the old response goes on
/// sounding: for each of the `hold_samples` samples that follow, the
/// output of the convolver that was sounding is handed out unchanged.
/// `fading_samples` samples after those the output of the other
/// convolver, which took the new response, is handed out unchanged, and
/// the fade is over.
pub proof fn lemma_update_keeps_old_response_sounding<T>(
    s: TimeDomainState<T>,
    response: Seq<T>,
    k: nat,
)
    requires
        s.wf(),
        !s.crossfading(),
        k < s.crossfader.hold_samples + s.crossfader.fading_samples,
    ensures
        s.placement() == Placement::Install(s.idle_stream()),
        ({
            let after = s.after_update(response).crossfader.after_mixes(k);
            &&& k < s.crossfader.hold_samples ==> after.mixed() == take(
                s.crossfader.fading_state.spec_target(),
            )
            &&& k == s.crossfader.hold_samples + s.crossfader.fading_samples - 1 ==> {
                &&& after.mixed() == take(s.idle_stream())
                &&& after.after_mix().fading_state == FadingState::Reached(s.idle_stream())
            }
        }),
{
    lemma_fade_holds_blends_lands(s.crossfader, s.idle_stream(), k);
}

} // verus!
