//! Per-sample effects: a one-pole low-pass filter, a tempo-synced echo and a
//! single-tap recursive smoother, as one tagged type so chains stay
//! inspectable.
//!
//! Control values use `UNIT` for 1.0. Stored state is kept inside
//! `[-AMP_CEIL, AMP_CEIL]`; one application may emit up to twice that, and
//! the caller clips where its own budget requires.

use vstd::prelude::*;

use crate::units::{clamp_spec, scale_by, tdiv, AMP_CEIL, UNIT};

verus! {

/// Smallest low-pass coefficient (about 0.01 of full scale).
pub const ALPHA_MIN: i64 = 655;

/// Largest low-pass coefficient (about 0.99 of full scale).
pub const ALPHA_MAX: i64 = 64881;

/// One-pole low-pass filter: the state chases the input by a fraction
/// `cutoff` of the distance per sample.
pub struct LowPassFilter {
    pub cutoff: i64,
    pub state: i64,
}

/// What one low-pass step leaves in the state (and emits).
pub open spec fn lowpass_step_spec(state: int, cutoff: int, x: int) -> int {
    state + tdiv(clamp_spec(cutoff, ALPHA_MIN as int, ALPHA_MAX as int) * (x - state), UNIT as int)
}

impl LowPassFilter {
    pub open spec fn wf(self) -> bool {
        -AMP_CEIL <= self.state <= AMP_CEIL
    }

    pub fn new(cutoff: i64) -> (fx: LowPassFilter)
        ensures
            fx.wf(),
            fx.cutoff == cutoff,
            fx.state == 0,
    {
        LowPassFilter { cutoff, state: 0 }
    }

    /// Move the state toward `x` and emit it.
    pub fn apply(&mut self, x: i64) -> (out: i64)
        requires
            old(self).wf(),
            -AMP_CEIL <= x <= AMP_CEIL,
        ensures
            final(self).wf(),
            out == lowpass_step_spec(old(self).state as int, old(self).cutoff as int, x as int),
            final(self).state == out,
            final(self).cutoff == old(self).cutoff,
            -AMP_CEIL <= out <= AMP_CEIL,
    {
        let alpha = crate::units::clamp64(self.cutoff, ALPHA_MIN, ALPHA_MAX);
        let step = scale_by(x - self.state, alpha);
        self.state = self.state + step;
        self.state
    }
}

/// Beat fraction a tempo-synced echo delays by.
pub enum EchoDivision {
    Quarter,
    Half,
    Whole,
}

impl EchoDivision {
    /// How many of these divisions make one beat.
    pub open spec fn per_beat(self) -> int {
        match self {
            EchoDivision::Quarter => 4,
            EchoDivision::Half => 2,
            EchoDivision::Whole => 1,
        }
    }

    fn per_beat_exec(&self) -> (n: i64)
        ensures
            n == self.per_beat(),
    {
        match self {
            EchoDivision::Quarter => 4,
            EchoDivision::Half => 2,
            EchoDivision::Whole => 1,
        }
    }
}

/// The echo delay in samples: `sample_rate * 60 / bpm / per_beat`, rounded to
/// the nearest sample.
pub open spec fn delay_samples_spec(bpm_milli: int, per_beat: int, sample_rate: int) -> int {
    (2 * sample_rate * 60000 + bpm_milli * per_beat) / (2 * (bpm_milli * per_beat))
}

/// Tempo-synced feedback echo over a circular buffer one delay long.
pub struct EchoFx {
    pub division: EchoDivision,
    /// Fraction of the echo fed back into the line, in `[0, UNIT]`.
    pub feedback: i64,
    pub sample_rate: i64,
    pub bpm_milli: i64,
    pub buffer: Vec<i64>,
    pub index: usize,
}

impl EchoFx {
    pub open spec fn wf(self) -> bool {
        &&& 0 <= self.feedback <= UNIT
        &&& 8000 <= self.sample_rate <= 384000
        &&& 30000 <= self.bpm_milli <= 300000
        &&& self.buffer@.len() == delay_samples_spec(
            self.bpm_milli as int,
            self.division.per_beat(),
            self.sample_rate as int,
        )
        &&& 1 <= self.buffer@.len() <= 1000000
        &&& self.index < self.buffer@.len()
        &&& forall|i: int|
            0 <= i < self.buffer@.len() ==> -AMP_CEIL <= #[trigger] self.buffer@[i] <= AMP_CEIL
    }

    /// Build an echo synced to `bpm_milli`, clamping the tempo and feedback
    /// into range silently.
    pub fn new_sync(bpm_milli: i64, division: EchoDivision, sample_rate: i64, feedback: i64) -> (fx:
        EchoFx)
        requires
            8000 <= sample_rate <= 384000,
        ensures
            fx.wf(),
            fx.division == division,
            fx.sample_rate == sample_rate,
            fx.bpm_milli as int == clamp_spec(bpm_milli as int, 30000, 300000),
            fx.feedback as int == clamp_spec(feedback as int, 0, UNIT as int),
            fx.index == 0,
            forall|i: int| 0 <= i < fx.buffer@.len() ==> #[trigger] fx.buffer@[i] == 0,
    {
        let bpm = crate::units::clamp64(bpm_milli, 30000, 300000);
        let fb = crate::units::clamp64(feedback, 0, UNIT);
        let n = delay_samples(bpm, &division, sample_rate);
        let buffer = alloc_silence(n);
        EchoFx { division, feedback: fb, sample_rate, bpm_milli: bpm, buffer, index: 0 }
    }

    /// Re-sync the delay line to a new tempo (clamped silently): the buffer
    /// is rebuilt at the new length and cleared.
    pub fn update_bpm(&mut self, new_bpm_milli: i64)
        requires
            old(self).wf(),
        ensures
            final(self).wf(),
            final(self).division == old(self).division,
            final(self).sample_rate == old(self).sample_rate,
            final(self).feedback == old(self).feedback,
            final(self).bpm_milli as int == clamp_spec(new_bpm_milli as int, 30000, 300000),
            final(self).index == 0,
            final(self).buffer@.len() == delay_samples_spec(
                clamp_spec(new_bpm_milli as int, 30000, 300000),
                old(self).division.per_beat(),
                old(self).sample_rate as int,
            ),
            forall|i: int| 0 <= i < final(self).buffer@.len() ==> #[trigger] final(self).buffer@[i]
                == 0,
    {
        let bpm = crate::units::clamp64(new_bpm_milli, 30000, 300000);
        self.bpm_milli = bpm;
        let n = delay_samples(bpm, &self.division, self.sample_rate);
        self.buffer = alloc_silence(n);
        self.index = 0;
    }

    /// Read the delay line, emit input plus echo, write input plus scaled
    /// echo back, and step the ring index.
    pub fn apply(&mut self, x: i64) -> (out: i64)
        requires
            old(self).wf(),
            -AMP_CEIL <= x <= AMP_CEIL,
        ensures
            final(self).wf(),
            out == x + old(self).buffer@[old(self).index as int],
            -2 * AMP_CEIL <= out <= 2 * AMP_CEIL,
            final(self).buffer@ == old(self).buffer@.update(
                old(self).index as int,
                (clamp_spec(
                    x + tdiv(
                        old(self).buffer@[old(self).index as int] * old(self).feedback,
                        UNIT as int,
                    ),
                    -AMP_CEIL as int,
                    AMP_CEIL as int,
                )) as i64,
            ),
            final(self).index as int == (old(self).index + 1) % (old(self).buffer@.len() as int),
            final(self).division == old(self).division,
            final(self).feedback == old(self).feedback,
            final(self).sample_rate == old(self).sample_rate,
            final(self).bpm_milli == old(self).bpm_milli,
    {
        let echo = self.buffer[self.index];
        let out = x + echo;
        let fed = scale_by(echo, self.feedback);
        let written = crate::units::clamp64(x + fed, -AMP_CEIL, AMP_CEIL);
        self.buffer[self.index] = written;
        self.index = (self.index + 1) % self.buffer.len();
        out
    }
}

/// Single-tap recursive smoother: emits input plus scaled previous output.
pub struct ReverbFx {
    /// Fraction of the previous output blended in, in `[0, UNIT]`.
    pub feedback: i64,
    pub last: i64,
}

/// What one smoother step emits.
pub open spec fn reverb_step_spec(last: int, feedback: int, x: int) -> int {
    x + tdiv(last * feedback, UNIT as int)
}

impl ReverbFx {
    pub open spec fn wf(self) -> bool {
        &&& 0 <= self.feedback <= UNIT
        &&& -AMP_CEIL <= self.last <= AMP_CEIL
    }

    /// Build a smoother, clamping the feedback into range silently.
    pub fn new(feedback: i64) -> (fx: ReverbFx)
        ensures
            fx.wf(),
            fx.feedback as int == clamp_spec(feedback as int, 0, UNIT as int),
            fx.last == 0,
    {
        ReverbFx { feedback: crate::units::clamp64(feedback, 0, UNIT), last: 0 }
    }

    /// Emit input plus scaled previous output, and remember the result
    /// (clipped into the state's headroom).
    pub fn apply(&mut self, x: i64) -> (out: i64)
        requires
            old(self).wf(),
            -AMP_CEIL <= x <= AMP_CEIL,
        ensures
            final(self).wf(),
            out == reverb_step_spec(old(self).last as int, old(self).feedback as int, x as int),
            -2 * AMP_CEIL <= out <= 2 * AMP_CEIL,
            final(self).last as int == clamp_spec(out as int, -AMP_CEIL as int, AMP_CEIL as int),
            final(self).feedback == old(self).feedback,
    {
        let fed = scale_by(self.last, self.feedback);
        let out = x + fed;
        self.last = crate::units::clamp64(out, -AMP_CEIL, AMP_CEIL);
        out
    }
}

/// Any of the crate's effects, as one tagged value.
pub enum Effect {
    LowPass(LowPassFilter),
    Echo(EchoFx),
    Reverb(ReverbFx),
}

/// Mathematical model of a low-pass filter.
pub struct LowPassV {
    pub cutoff: int,
    pub state: int,
}

/// Mathematical model of an echo.
pub struct EchoV {
    pub division: EchoDivision,
    pub feedback: int,
    pub sample_rate: int,
    pub bpm_milli: int,
    pub buffer: Seq<int>,
    pub index: int,
}

/// Mathematical model of the smoother.
pub struct ReverbV {
    pub feedback: int,
    pub last: int,
}

/// Mathematical model of an effect's full state.
pub enum EffectV {
    LowPass(LowPassV),
    Echo(EchoV),
    Reverb(ReverbV),
}

impl View for Effect {
    type V = EffectV;

    open spec fn view(&self) -> EffectV {
        match *self {
            Effect::LowPass(f) => EffectV::LowPass(
                LowPassV { cutoff: f.cutoff as int, state: f.state as int },
            ),
            Effect::Echo(f) => EffectV::Echo(
                EchoV {
                    division: f.division,
                    feedback: f.feedback as int,
                    sample_rate: f.sample_rate as int,
                    bpm_milli: f.bpm_milli as int,
                    buffer: f.buffer@.map_values(|v: i64| v as int),
                    index: f.index as int,
                },
            ),
            Effect::Reverb(f) => EffectV::Reverb(
                ReverbV { feedback: f.feedback as int, last: f.last as int },
            ),
        }
    }
}

/// The sample one application of `e` to `x` emits.
pub open spec fn fx_out(e: EffectV, x: int) -> int {
    match e {
        EffectV::LowPass(f) => lowpass_step_spec(f.state, f.cutoff, x),
        EffectV::Echo(f) => x + f.buffer[f.index],
        EffectV::Reverb(f) => reverb_step_spec(f.last, f.feedback, x),
    }
}

/// The state one application of `e` to `x` leaves behind.
pub open spec fn fx_next(e: EffectV, x: int) -> EffectV {
    match e {
        EffectV::LowPass(f) => EffectV::LowPass(
            LowPassV { state: lowpass_step_spec(f.state, f.cutoff, x), ..f },
        ),
        EffectV::Echo(f) => EffectV::Echo(
            EchoV {
                buffer: f.buffer.update(
                    f.index,
                    clamp_spec(
                        x + tdiv(f.buffer[f.index] * f.feedback, UNIT as int),
                        -AMP_CEIL as int,
                        AMP_CEIL as int,
                    ),
                ),
                index: (f.index + 1) % f.buffer.len() as int,
                ..f
            },
        ),
        EffectV::Reverb(f) => EffectV::Reverb(
            ReverbV {
                last: clamp_spec(
                    reverb_step_spec(f.last, f.feedback, x),
                    -AMP_CEIL as int,
                    AMP_CEIL as int,
                ),
                ..f
            },
        ),
    }
}

impl Effect {
    pub open spec fn wf(self) -> bool {
        match self {
            Effect::LowPass(f) => f.wf(),
            Effect::Echo(f) => f.wf(),
            Effect::Reverb(f) => f.wf(),
        }
    }

    /// Run one sample through the effect.
    pub fn apply(&mut self, x: i64) -> (out: i64)
        requires
            old(self).wf(),
            -AMP_CEIL <= x <= AMP_CEIL,
        ensures
            final(self).wf(),
            out == fx_out(old(self)@, x as int),
            -2 * AMP_CEIL <= out <= 2 * AMP_CEIL,
            final(self)@ == fx_next(old(self)@, x as int),
    {
        match self {
            Effect::LowPass(f) => f.apply(x),
            Effect::Echo(f) => {
                let ghost b0 = f.buffer@.map_values(|v: i64| v as int);
                let out = f.apply(x);
                proof {
                    assert(f.buffer@.map_values(|v: i64| v as int) =~= b0.update(
                        (*old(self))->Echo_0.index as int,
                        clamp_spec(
                            x + tdiv(
                                b0[(*old(self))->Echo_0.index as int] * (*old(self))->Echo_0.feedback,
                                UNIT as int,
                            ),
                            -AMP_CEIL as int,
                            AMP_CEIL as int,
                        ),
                    ));
                }
                out
            },
            Effect::Reverb(f) => f.apply(x),
        }
    }

    /// Clear the effect's memory; parameters stay.
    pub fn reset(&mut self)
        requires
            old(self).wf(),
        ensures
            final(self).wf(),
            (*old(self)) is LowPass ==> *final(self) == Effect::LowPass(
                LowPassFilter { state: 0, ..(*old(self))->LowPass_0 },
            ),
            (*old(self)) is Reverb ==> *final(self) == Effect::Reverb(
                ReverbFx { last: 0, ..(*old(self))->Reverb_0 },
            ),
            (*old(self)) is Echo ==> (*final(self)) is Echo && {
                let a = (*final(self))->Echo_0;
                let b = (*old(self))->Echo_0;
                a.division == b.division && a.feedback == b.feedback && a.sample_rate
                    == b.sample_rate && a.bpm_milli == b.bpm_milli && a.index == 0
                    && a.buffer@.len() == b.buffer@.len() && (forall|i: int|
                    0 <= i < a.buffer@.len() ==> #[trigger] a.buffer@[i] == 0)
            },
    {
        match self {
            Effect::LowPass(f) => {
                f.state = 0;
            },
            Effect::Echo(f) => {
                let n = f.buffer.len();
                f.buffer = alloc_silence(n);
                f.index = 0;
            },
            Effect::Reverb(f) => {
                f.last = 0;
            },
        }
    }

    /// Re-sync a tempo-synced effect to a new tempo; others are unaffected.
    pub fn update_tempo(&mut self, new_bpm_milli: i64)
        requires
            old(self).wf(),
        ensures
            final(self).wf(),
            (*old(self)) is Echo ==> (*final(self)) is Echo && {
                let a = (*final(self))->Echo_0;
                let b = (*old(self))->Echo_0;
                a.division == b.division && a.feedback == b.feedback && a.sample_rate
                    == b.sample_rate && a.bpm_milli as int == clamp_spec(
                    new_bpm_milli as int,
                    30000,
                    300000,
                ) && a.index == 0 && a.buffer@.len() == delay_samples_spec(
                    clamp_spec(new_bpm_milli as int, 30000, 300000),
                    b.division.per_beat(),
                    b.sample_rate as int,
                ) && (forall|i: int| 0 <= i < a.buffer@.len() ==> #[trigger] a.buffer@[i] == 0)
            },
            !((*old(self)) is Echo) ==> *final(self) == *old(self),
    {
        match self {
            Effect::Echo(f) => f.update_bpm(new_bpm_milli),
            _ => (),
        }
    }
}

/// A zeroed delay line of `n` samples.
fn alloc_silence(n: usize) -> (v: Vec<i64>)
    ensures
        v@.len() == n,
        forall|i: int| 0 <= i < n ==> #[trigger] v@[i] == 0,
{
    let mut v: Vec<i64> = Vec::new();
    let mut i: usize = 0;
    while i < n
        invariant
            i <= n,
            v@.len() == i,
            forall|j: int| 0 <= j < i ==> #[trigger] v@[j] == 0,
        decreases n - i,
    {
        v.push(0);
        i += 1;
    }
    v
}

/// The echo delay, executable, with its bounds.
fn delay_samples(bpm_milli: i64, division: &EchoDivision, sample_rate: i64) -> (n: usize)
    requires
        30000 <= bpm_milli <= 300000,
        8000 <= sample_rate <= 384000,
    ensures
        n == delay_samples_spec(bpm_milli as int, division.per_beat(), sample_rate as int),
        400 <= n <= 1000000,
{
    let per = division.per_beat_exec();
    let b = bpm_milli * per;
    let num = 2 * sample_rate * 60000 + b;
    let den = 2 * b;
    let n64 = num / den;
    proof {
        let bi = b as int;
        assert(30000 <= bi <= 1200000);
        assert(800 * bi <= num as int);
        assert(num as int <= 2000000 * bi);
        vstd::arithmetic::div_mod::lemma_div_is_ordered(800 * bi, num as int, 2 * bi);
        assert(800 * bi == (2 * bi) * 400) by (nonlinear_arith);
        vstd::arithmetic::div_mod::lemma_div_multiples_vanish(400, 2 * bi);
        vstd::arithmetic::div_mod::lemma_div_is_ordered(num as int, 2000000 * bi, 2 * bi);
        assert(2000000 * bi == (2 * bi) * 1000000) by (nonlinear_arith);
        vstd::arithmetic::div_mod::lemma_div_multiples_vanish(1000000, 2 * bi);
    }
    n64 as usize
}

} // verus!
