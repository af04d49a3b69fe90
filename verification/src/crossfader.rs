//! Sample-accurate crossfader between two streams, A and B.
//!
//! The crossfader counts samples. After `fade_into` it first holds the
//! stream that was sounding for `hold_samples` samples, then blends for
//! `fading_samples` samples and lands exactly on the new stream. The mix
//! value is kept as an exact multiple of `1 / fading_samples`.
//!
//! The mix value is the share of stream B. It rests at 0 on stream A and
//! at 1 on stream B, and a fade moves it by one step per sample towards
//! the stream that is approached: up towards B, down towards A. It never
//! leaves the range from 0 to 1, and a blend is handed out strictly
//! inside it.

use vstd::prelude::*;

verus! {

/// Straight-line curve: gains `1 - v` and `v`.
#[derive(Clone, Copy, Debug)]
pub struct LinearMixer;

/// Square-root curve: gains `sqrt(1 - v)` and `sqrt(v)`.
#[derive(Clone, Copy, Debug)]
pub struct SquareRootMixer;

/// Sine/cosine curve: gains `cos(pi v / 2)` and `sin(pi v / 2)`.
#[derive(Clone, Copy, Debug)]
pub struct CosineMixer;

/// Raised-cosine curve: gains `cos^2(pi v / 2)` and `1 - cos^2(pi v / 2)`.
#[derive(Clone, Copy, Debug)]
pub struct RaisedCosineMixer;

/// One of the two streams.
#[derive(Clone, Copy, Debug, PartialEq, Eq, Structural)]
pub enum Target {
    A,
    B,
}

impl Target {
    /// The stream that `self` is not.
    pub open spec fn other(self) -> Target {
        match self {
            Target::A => Target::B,
            Target::B => Target::A,
        }
    }

    /// The stream that `self` is not.
    pub fn opposite(self) -> (r: Target)
        ensures
            r == self.other(),
    {
        match self {
            Target::A => Target::B,
            Target::B => Target::A,
        }
    }
}

/// Where a crossfader stands: on a stream, or on its way to one.
#[derive(Clone, Copy, Debug, PartialEq, Eq, Structural)]
pub enum FadingState {
    Reached(Target),
    Approaching(Target),
}

impl FadingState {
    /// The stream that is reached or approached.
    pub open spec fn spec_target(&self) -> Target {
        match *self {
            FadingState::Reached(t) => t,
            FadingState::Approaching(t) => t,
        }
    }

    /// The stream that is reached or approached.
    #[verifier::when_used_as_spec(spec_target)]
    pub fn target(&self) -> (r: Target)
        ensures
            r == self.spec_target(),
    {
        match self {
            FadingState::Reached(target) => *target,
            FadingState::Approaching(target) => *target,
        }
    }
}

/// What one call of `mix` hands out for the sample pair `(a, b)`.
#[derive(Clone, Copy, Debug, PartialEq, Eq, Structural)]
pub enum Mix {
    /// The sample of stream A, unchanged.
    A,
    /// The sample of stream B, unchanged.
    B,
    /// The curve's blend of both samples at the mix value
    /// `numerator / denominator`, which lies strictly between 0 and 1.
    Blend { numerator: i64, denominator: i64 },
}

/// The mix that hands out `target`'s sample unchanged.
pub open spec fn take(target: Target) -> Mix {
    match target {
        Target::A => Mix::A,
        Target::B => Mix::B,
    }
}

/// Largest accepted number of fading samples and of hold samples.
pub const MAX_SAMPLES: usize = 0x3fff_ffff;

/// Mathematical state of a crossfader. `mix_value` and `mix_value_step`
/// count in units of `1 / fading_samples`.
pub struct CrossfaderState {
    pub fading_state: FadingState,
    pub counter: int,
    pub mix_value: int,
    pub mix_value_step: int,
    pub fading_samples: int,
    pub hold_samples: int,
}

impl CrossfaderState {
    /// The mix value at which `target` is reached: 0 for A, 1 for B.
    pub open spec fn resting_value(self, target: Target) -> int {
        match target {
            Target::A => 0,
            Target::B => self.fading_samples,
        }
    }

    /// The step by which a fade to `target` moves the mix value with each
    /// sample: up towards B, down towards A.
    pub open spec fn direction(target: Target) -> int {
        match target {
            Target::A => -1,
            Target::B => 1,
        }
    }

    /// Samples of the running fade that have been blended so far.
    pub open spec fn faded(self) -> int {
        if self.counter > 0 {
            self.counter
        } else {
            0
        }
    }

    /// The mix value of a fade to `target` of which `faded` samples have
    /// been blended.
    pub open spec fn value_towards(self, target: Target, faded: int) -> int {
        match target {
            Target::A => self.fading_samples - faded,
            Target::B => faded,
        }
    }

    /// The invariant of a crossfader: the step points at the stream that
    /// is reached or approached, the mix value lies between 0 and 1, on
    /// a reached stream the counter is 0 and the mix value rests, and
    /// during a fade the mix value is as far on its way as the counter
    /// says.
    pub open spec fn wf(self) -> bool {
        &&& 1 <= self.fading_samples <= MAX_SAMPLES
        &&& 0 <= self.hold_samples <= MAX_SAMPLES
        &&& self.mix_value_step == Self::direction(self.fading_state.spec_target())
        &&& 0 <= self.mix_value <= self.fading_samples
        &&& match self.fading_state {
            FadingState::Reached(t) => self.counter == 0 && self.mix_value
                == self.resting_value(t),
            FadingState::Approaching(t) => {
                &&& -self.hold_samples <= self.counter <= self.fading_samples
                &&& self.mix_value == self.value_towards(t, self.faded())
            },
        }
    }

    /// The state in which a new crossfader starts: at rest on stream A.
    pub open spec fn initial(fading_samples: int, hold_samples: int) -> CrossfaderState {
        CrossfaderState {
            fading_state: FadingState::Reached(Target::A),
            counter: 0,
            mix_value: 0,
            mix_value_step: -1,
            fading_samples,
            hold_samples,
        }
    }

    /// The state after `fade_into(target)`.
    pub open spec fn after_fade_into(self, target: Target) -> CrossfaderState {
        if self.fading_state.spec_target() == target {
            self
        } else {
            match self.fading_state {
                FadingState::Reached(_) => CrossfaderState {
                    fading_state: FadingState::Approaching(target),
                    counter: -self.hold_samples,
                    mix_value_step: Self::direction(target),
                    ..self
                },
                FadingState::Approaching(_) => if self.counter >= 0 {
                    CrossfaderState {
                        fading_state: FadingState::Approaching(target),
                        counter: self.fading_samples - self.counter,
                        mix_value_step: Self::direction(target),
                        ..self
                    }
                } else {
                    CrossfaderState {
                        fading_state: FadingState::Reached(target),
                        counter: 0,
                        mix_value_step: Self::direction(target),
                        ..self
                    }
                },
            }
        }
    }

    /// What the next call of `mix` hands out: on a reached stream its
    /// sample; during the hold phase the sample of the stream that the
    /// fade leaves; then blends; and the sample of the target once the
    /// counter reaches `fading_samples`. A fade that was reversed right
    /// at the end of its hold phase has the counter there already, and
    /// lands with the next sample.
    pub open spec fn mixed(self) -> Mix {
        match self.fading_state {
            FadingState::Reached(t) => take(t),
            FadingState::Approaching(t) => if self.counter + 1 <= 0 {
                take(t.other())
            } else if self.counter + 1 >= self.fading_samples {
                take(t)
            } else {
                Mix::Blend {
                    numerator: (self.mix_value + self.mix_value_step) as i64,
                    denominator: self.fading_samples as i64,
                }
            },
        }
    }

    /// The state after the next call of `mix`.
    pub open spec fn after_mix(self) -> CrossfaderState {
        match self.fading_state {
            FadingState::Reached(_) => self,
            FadingState::Approaching(t) => if self.counter + 1 <= 0 {
                CrossfaderState { counter: self.counter + 1, ..self }
            } else if self.counter + 1 >= self.fading_samples {
                CrossfaderState {
                    fading_state: FadingState::Reached(t),
                    counter: 0,
                    mix_value: self.resting_value(t),
                    ..self
                }
            } else {
                CrossfaderState {
                    counter: self.counter + 1,
                    mix_value: self.mix_value + self.mix_value_step,
                    ..self
                }
            },
        }
    }

    /// The state after `n` calls of `mix`.
    pub open spec fn after_mixes(self, n: nat) -> CrossfaderState
        decreases n,
    {
        if n == 0 {
            self
        } else {
            self.after_mixes((n - 1) as nat).after_mix()
        }
    }
}

/// Crossfader between streams A and B with the mixing curve `T`.
#[derive(Clone, Debug)]
pub struct Crossfader<T> {
    mixer: T,
    fading_samples: i64,
    hold_samples: i64,
    counter: i64,
    mix_value_step: i64,
    mix_value: i64,
    fading_state: FadingState,
}

impl<T> View for Crossfader<T> {
    type V = CrossfaderState;

    closed spec fn view(&self) -> CrossfaderState {
        CrossfaderState {
            fading_state: self.fading_state,
            counter: self.counter as int,
            mix_value: self.mix_value as int,
            mix_value_step: self.mix_value_step as int,
            fading_samples: self.fading_samples as int,
            hold_samples: self.hold_samples as int,
        }
    }
}

impl<T> Crossfader<T> {
    /// The mixing curve that this crossfader was made with.
    pub closed spec fn spec_mixer(&self) -> T {
        self.mixer
    }

    /// A crossfader that rests on stream A.
    pub fn new(mixer: T, fading_samples: usize, hold_samples: usize) -> (r: Self)
        requires
            1 <= fading_samples <= MAX_SAMPLES,
            hold_samples <= MAX_SAMPLES,
        ensures
            r@ == CrossfaderState::initial(fading_samples as int, hold_samples as int),
            r@.wf(),
            r.spec_mixer() == mixer,
    {
        Crossfader {
            mixer,
            fading_samples: fading_samples as i64,
            hold_samples: hold_samples as i64,
            counter: 0,
            mix_value_step: -1,
            mix_value: 0,
            fading_state: FadingState::Reached(Target::A),
        }
    }

    /// Starts moving to `target`. Nothing happens if `target` is already
    /// reached or approached. From a reached stream the hold phase
    /// begins. A fade that is still in its hold phase is dropped and
    /// `target` is reached at once; one that is past it is reversed. The
    /// step points at `target` from then on.
    pub fn fade_into(&mut self, target: Target)
        requires
            old(self)@.wf(),
        ensures
            final(self)@ == old(self)@.after_fade_into(target),
            final(self)@.wf(),
            final(self).spec_mixer() == old(self).spec_mixer(),
    {
        let current_target = self.fading_state.target();
        if current_target == target {
            return ;
        }
        self.mix_value_step = match target {
            Target::A => -1,
            Target::B => 1,
        };
        match self.fading_state {
            FadingState::Reached(_) => {
                self.counter = -self.hold_samples;
                self.fading_state = FadingState::Approaching(target);
            },
            FadingState::Approaching(_) => {
                if self.counter >= 0 {
                    self.counter = self.fading_samples - self.counter;
                    self.fading_state = FadingState::Approaching(target);
                } else {
                    self.counter = 0;
                    self.fading_state = FadingState::Reached(target);
                }
            },
        }
    }

    /// Decides what is handed out for the next pair of samples and moves
    /// on by one sample.
    pub fn mix(&mut self) -> (r: Mix)
        requires
            old(self)@.wf(),
        ensures
            r == old(self)@.mixed(),
            final(self)@ == old(self)@.after_mix(),
            final(self)@.wf(),
            final(self).spec_mixer() == old(self).spec_mixer(),
    {
        match self.fading_state {
            FadingState::Reached(target) => match target {
                Target::A => Mix::A,
                Target::B => Mix::B,
            },
            FadingState::Approaching(target) => {
                let counter: i64 = self.counter + 1;
                if counter <= 0 {
                    self.counter = counter;
                    return match target {
                        Target::A => Mix::B,
                        Target::B => Mix::A,
                    };
                }
                if counter >= self.fading_samples {
                    self.counter = 0;
                    self.fading_state = FadingState::Reached(target);
                    return match target {
                        Target::A => {
                            self.mix_value = 0;
                            Mix::A
                        },
                        Target::B => {
                            self.mix_value = self.fading_samples;
                            Mix::B
                        },
                    };
                }
                self.counter = counter;
                self.mix_value = self.mix_value + self.mix_value_step;
                Mix::Blend { numerator: self.mix_value, denominator: self.fading_samples }
            },
        }
    }

    /// Where the crossfader stands.
    pub fn fading_state(&self) -> (r: FadingState)
        ensures
            r == self@.fading_state,
    {
        self.fading_state
    }

    /// The mixing curve.
    pub fn mixer(&self) -> (r: &T)
        ensures
            *r == self.spec_mixer(),
    {
        &self.mixer
    }
}

/// The state `n` samples after `fade_into(target)` was called on a
/// crossfader that rested on the other stream, while the fade still runs.
pub open spec fn fading(s: CrossfaderState, target: Target, n: nat) -> CrossfaderState {
    CrossfaderState {
        fading_state: FadingState::Approaching(target),
        counter: n - s.hold_samples,
        mix_value: s.value_towards(
            target,
            if n > s.hold_samples {
                n - s.hold_samples
            } else {
                0
            },
        ),
        mix_value_step: CrossfaderState::direction(target),
        ..s
    }
}

/// While a fade from a reached stream runs, the counter has moved by one
/// for each sample and the mix value by one step towards the target for
/// each sample after the hold phase.
pub proof fn lemma_fade_progress(s: CrossfaderState, target: Target, n: nat)
    requires
        s.wf(),
        s.fading_state == FadingState::Reached(target.other()),
        n < s.hold_samples + s.fading_samples,
    ensures
        s.after_fade_into(target).after_mixes(n) == fading(s, target, n),
    decreases n,
{
    if n > 0 {
        lemma_fade_progress(s, target, (n - 1) as nat);
    }
}

/// A fade that starts from a reached stream hands out the sample of that
/// stream, unchanged, for each of the first `hold_samples` samples. For
/// each of the next `fading_samples - 1` samples it hands out a blend
/// whose mix value lies strictly between 0 and 1 and is one step nearer
/// to the target with each sample: the share of stream B rises by
/// `1 / fading_samples` per sample on the way to B and falls by as much
/// on the way to A. For the sample after those it hands out the sample
/// of the new stream, unchanged, and rests there.
pub proof fn lemma_fade_holds_blends_lands(s: CrossfaderState, target: Target, k: nat)
    requires
        s.wf(),
        s.fading_state == FadingState::Reached(target.other()),
        k < s.hold_samples + s.fading_samples,
    ensures
        ({
            let before = s.after_fade_into(target).after_mixes(k);
            let blended = k - s.hold_samples + 1;
            &&& k < s.hold_samples ==> {
                &&& before.mixed() == take(target.other())
                &&& before.after_mix().fading_state == FadingState::Approaching(target)
            }
            &&& s.hold_samples <= k < s.hold_samples + s.fading_samples - 1 ==> {
                &&& 0 < blended < s.fading_samples
                &&& before.mixed() == (Mix::Blend {
                    numerator: (match target {
                        Target::A => s.fading_samples - blended,
                        Target::B => blended,
                    }) as i64,
                    denominator: s.fading_samples as i64,
                })
                &&& 0 < before.mixed()->numerator < before.mixed()->denominator
                &&& before.after_mix().fading_state == FadingState::Approaching(target)
            }
            &&& k == s.hold_samples + s.fading_samples - 1 ==> {
                &&& before.mixed() == take(target)
                &&& before.after_mix().fading_state == FadingState::Reached(target)
                &&& before.after_mix().mix_value == s.resting_value(target)
                &&& before.after_mix().counter == 0
            }
        }),
{
    lemma_fade_progress(s, target, k);
}

/// `fade_into` and `mix` keep the invariant: the step points at the
/// stream that is reached or approached, the mix value lies between 0
/// and 1, on a reached stream the counter is 0 and the mix value is the
/// resting value of that stream, and during a fade the counter lies
/// between `-hold_samples` and `fading_samples`.
pub proof fn lemma_steps_keep_invariant(s: CrossfaderState, target: Target)
    requires
        s.wf(),
    ensures
        s.after_fade_into(target).wf(),
        s.after_mix().wf(),
        0 <= s.after_fade_into(target).mix_value <= s.fading_samples,
        0 <= s.after_mix().mix_value <= s.fading_samples,
{
}

/// Any number of calls of `mix` keeps the invariant.
pub proof fn lemma_mixes_keep_invariant(s: CrossfaderState, n: nat)
    requires
        s.wf(),
    ensures
        s.after_mixes(n).wf(),
    decreases n,
{
    if n > 0 {
        lemma_mixes_keep_invariant(s, (n - 1) as nat);
    }
}

/// Whenever a blend is handed out, after whatever fades, reversals and
/// dropped fades, its mix value lies strictly between 0 and 1, and it is
/// the share of stream B: as many steps above 0 as samples were blended
/// on the way to B, or as many below 1 on the way to A.
pub proof fn lemma_blend_is_between_resting_values(s: CrossfaderState)
    requires
        s.wf(),
        s.mixed() is Blend,
    ensures
        s.mixed()->denominator == s.fading_samples,
        0 < s.mixed()->numerator < s.mixed()->denominator,
        s.mixed()->numerator == s.value_towards(s.fading_state.spec_target(), s.counter + 1),
        0 < s.counter + 1 < s.fading_samples,
{
}

} // verus!
