//! One polyphonic voice: a triangle oscillator shaped by a linear ADSR
//! envelope.
//!
//! All audio is Q15 fixed point: `FP_ONE` stands for 1.0.
//!
//! The amplitude model, chosen deliberately: a voice's output is
//! `wave * envelope * velocity / 8`. The `/ 8` is built-in polyphony
//! headroom — a single voice peaks at `VOICE_PEAK = FP_ONE / 8`, so up to
//! eight simultaneous voices provably stay within full scale, where a
//! plain `wave * envelope * velocity` chain would rely on low polyphony
//! alone and admit clipping from two voices on. The headroom trades
//! loudness for a provable output bound; the mixer itself never clips.

use vstd::prelude::*;

verus! {

/// Q15 fixed-point one: the sample value standing for 1.0.
pub const FP_ONE: i64 = 32768;

/// The largest magnitude one voice can emit.
pub const VOICE_PEAK: i64 = 4096;

/// The envelope's stages, in order of a note's life.
#[derive(Clone, Copy, Debug, PartialEq, Eq, Structural)]
pub enum EnvStage {
    Idle,
    Attack,
    Decay,
    Sustain,
    Release,
}

/// A linear attack-decay-sustain-release envelope, advanced one sample at
/// a time. Stage lengths are in samples; levels are Q15.
#[derive(Clone, Copy, Debug, PartialEq, Eq, Structural)]
pub struct Envelope {
    pub attack_samples: u64,
    pub decay_samples: u64,
    pub sustain_level: i64,
    pub release_samples: u64,
    pub stage: EnvStage,
    pub pos: u64,
    pub release_start: i64,
}

impl Envelope {
    /// Stage lengths are positive, levels lie in `[0, FP_ONE]`, and the
    /// position stays inside the current stage.
    pub open spec fn wf(self) -> bool {
        &&& 1 <= self.attack_samples <= 0x1_0000_0000
        &&& 1 <= self.decay_samples <= 0x1_0000_0000
        &&& 1 <= self.release_samples <= 0x1_0000_0000
        &&& 0 <= self.sustain_level <= FP_ONE
        &&& 0 <= self.release_start <= FP_ONE
        &&& (self.stage == EnvStage::Attack ==> self.pos < self.attack_samples)
        &&& (self.stage == EnvStage::Decay ==> self.pos < self.decay_samples)
        &&& (self.stage == EnvStage::Release ==> self.pos < self.release_samples)
    }
}

/// The envelope's current level, by the linear formula of its stage.
pub open spec fn spec_env_level(e: Envelope) -> int {
    match e.stage {
        EnvStage::Idle => 0,
        EnvStage::Attack => FP_ONE * e.pos / e.attack_samples as int,
        EnvStage::Decay => FP_ONE - (FP_ONE - e.sustain_level) * e.pos / e.decay_samples as int,
        EnvStage::Sustain => e.sustain_level as int,
        EnvStage::Release => e.release_start * (e.release_samples - e.pos)
            / e.release_samples as int,
    }
}

/// The envelope one sample later.
pub open spec fn spec_env_advance(e: Envelope) -> Envelope {
    match e.stage {
        EnvStage::Idle => e,
        EnvStage::Attack => if e.pos + 1 >= e.attack_samples {
            Envelope { stage: EnvStage::Decay, pos: 0, ..e }
        } else {
            Envelope { pos: (e.pos + 1) as u64, ..e }
        },
        EnvStage::Decay => if e.pos + 1 >= e.decay_samples {
            Envelope { stage: EnvStage::Sustain, pos: 0, ..e }
        } else {
            Envelope { pos: (e.pos + 1) as u64, ..e }
        },
        EnvStage::Sustain => e,
        EnvStage::Release => if e.pos + 1 >= e.release_samples {
            Envelope { stage: EnvStage::Idle, pos: 0, ..e }
        } else {
            Envelope { pos: (e.pos + 1) as u64, ..e }
        },
    }
}

/// The envelope after a note-off: any sounding stage moves to release,
/// starting from the current level.
pub open spec fn spec_env_off(e: Envelope) -> Envelope {
    if e.stage == EnvStage::Idle {
        e
    } else {
        Envelope { stage: EnvStage::Release, pos: 0, release_start: spec_env_level(e) as i64, ..e }
    }
}

/// For nonnegative values, `a * b / c <= a` when `b <= c`.
pub proof fn lemma_mul_div_le(a: int, b: int, c: int)
    requires
        0 <= a,
        0 <= b <= c,
        1 <= c,
    ensures
        0 <= a * b / c <= a,
{
    assert(0 <= a * b) by (nonlinear_arith)
        requires
            0 <= a,
            0 <= b,
    ;
    assert(a * b <= a * c) by (nonlinear_arith)
        requires
            0 <= a,
            b <= c,
    ;
    vstd::arithmetic::div_mod::lemma_div_is_ordered(a * b, a * c, c);
    vstd::arithmetic::div_mod::lemma_div_by_multiple(a, c);
    assert(a * b / c >= 0) by {
        vstd::arithmetic::div_mod::lemma_div_is_ordered(0, a * b, c);
    }
}

/// A well-formed envelope's level lies in `[0, FP_ONE]`.
pub proof fn lemma_env_level_bounds(e: Envelope)
    requires
        e.wf(),
    ensures
        0 <= spec_env_level(e) <= FP_ONE,
{
    match e.stage {
        EnvStage::Idle => {},
        EnvStage::Attack => {
            lemma_mul_div_le(FP_ONE as int, e.pos as int, e.attack_samples as int);
        },
        EnvStage::Decay => {
            lemma_mul_div_le(
                FP_ONE - e.sustain_level,
                e.pos as int,
                e.decay_samples as int,
            );
        },
        EnvStage::Sustain => {},
        EnvStage::Release => {
            lemma_mul_div_le(
                e.release_start as int,
                e.release_samples - e.pos,
                e.release_samples as int,
            );
        },
    }
}

impl Envelope {
    /// The envelope's current level, mirroring `spec_env_level`.
    pub fn current_level(&self) -> (level: i64)
        requires
            self.wf(),
        ensures
            level == spec_env_level(*self),
            0 <= level <= FP_ONE,
    {
        proof {
            lemma_env_level_bounds(*self);
        }
        match self.stage {
            EnvStage::Idle => 0,
            EnvStage::Attack => {
                proof {
                    assert(32768 * self.pos <= 32768 * self.attack_samples) by (nonlinear_arith)
                        requires
                            self.pos <= self.attack_samples,
                    ;
                }
                ((FP_ONE as u64 * self.pos) / self.attack_samples) as i64
            },
            EnvStage::Decay => {
                let d = (FP_ONE - self.sustain_level) as u64;
                proof {
                    assert(d * self.pos <= 32768 * self.decay_samples) by (nonlinear_arith)
                        requires
                            self.pos <= self.decay_samples,
                            d <= 32768,
                    ;
                }
                FP_ONE - ((d * self.pos / self.decay_samples) as i64)
            },
            EnvStage::Sustain => self.sustain_level,
            EnvStage::Release => {
                let rem = self.release_samples - self.pos;
                proof {
                    assert(self.release_start as u64 * rem <= 32768 * self.release_samples)
                        by (nonlinear_arith)
                        requires
                            rem <= self.release_samples,
                            0 <= self.release_start <= 32768,
                    ;
                }
                ((self.release_start as u64 * rem) / self.release_samples) as i64
            },
        }
    }

    /// Return the current level and advance one sample, mirroring
    /// `spec_env_level` and `spec_env_advance`.
    pub fn next_level(&mut self) -> (level: i64)
        requires
            old(self).wf(),
        ensures
            final(self).wf(),
            *final(self) == spec_env_advance(*old(self)),
            level == spec_env_level(*old(self)),
            0 <= level <= FP_ONE,
    {
        let level = self.current_level();
        match self.stage {
            EnvStage::Idle => {},
            EnvStage::Attack => {
                if self.pos + 1 >= self.attack_samples {
                    self.stage = EnvStage::Decay;
                    self.pos = 0;
                } else {
                    self.pos = self.pos + 1;
                }
            },
            EnvStage::Decay => {
                if self.pos + 1 >= self.decay_samples {
                    self.stage = EnvStage::Sustain;
                    self.pos = 0;
                } else {
                    self.pos = self.pos + 1;
                }
            },
            EnvStage::Sustain => {},
            EnvStage::Release => {
                if self.pos + 1 >= self.release_samples {
                    self.stage = EnvStage::Idle;
                    self.pos = 0;
                } else {
                    self.pos = self.pos + 1;
                }
            },
        }
        level
    }
}

/// A triangle wave over a 32-bit phase: rising through the first half of
/// the cycle, falling through the second. Always within `[-FP_ONE, FP_ONE]`.
pub open spec fn spec_wave(phase: u64) -> int {
    if phase < 0x8000_0000 {
        phase as int / 0x8000 - FP_ONE
    } else {
        FP_ONE - (phase - 0x8000_0000) / 0x8000
    }
}

proof fn lemma_wave_bounds(phase: u64)
    requires
        phase < 0x1_0000_0000,
    ensures
        -FP_ONE <= spec_wave(phase) <= FP_ONE,
{
    if phase < 0x8000_0000 {
        vstd::arithmetic::div_mod::lemma_div_is_ordered(phase as int, 0x7fff_ffff, 0x8000);
        vstd::arithmetic::div_mod::lemma_div_is_ordered(0, phase as int, 0x8000);
    } else {
        vstd::arithmetic::div_mod::lemma_div_is_ordered(
            phase - 0x8000_0000,
            0x7fff_ffff,
            0x8000,
        );
        vstd::arithmetic::div_mod::lemma_div_is_ordered(0, phase - 0x8000_0000, 0x8000);
    }
}

/// One polyphonic voice: oscillator phase, envelope, velocity, and the
/// engine's bookkeeping of when it is released. The ghost fields track the
/// absolute sample position (`abs_pos`) for the engine's silence proofs.
pub struct Voice {
    pub envelope: Envelope,
    /// Absolute sample offset at which the engine will release this voice.
    pub release_sample: usize,
    /// Oscillator phase, below `2^32`.
    pub phase: u64,
    /// Phase increment per sample, below `2^32`.
    pub phase_inc: u64,
    /// Velocity in Q15, in `[0, FP_ONE]`.
    pub vel: i64,
    pub started: bool,
    pub sample_rate: u32,
    /// Ghost: the absolute index of the next sample this voice renders.
    pub abs_pos: Ghost<int>,
}

impl Voice {
    pub open spec fn wf(self) -> bool {
        &&& self.envelope.wf()
        &&& 0 <= self.vel <= FP_ONE
        &&& self.phase < 0x1_0000_0000
        &&& self.phase_inc < 0x1_0000_0000
        &&& self.sample_rate >= 1
    }

    /// True when the voice makes no more sound: never started, or the
    /// envelope is back at idle after its release.
    pub open spec fn spec_is_finished(self) -> bool {
        !self.started || self.envelope.stage == EnvStage::Idle
    }

    pub fn is_finished(&self) -> (r: bool)
        ensures
            r == self.spec_is_finished(),
    {
        !self.started || self.envelope.stage == EnvStage::Idle
    }

    /// A fresh, silent voice for the given sample rate: attack 0.005 s,
    /// decay 0.1 s, sustain 0.6 (19661 in Q15), release 0.05 s, each stage
    /// at least one sample long.
    pub fn new(sample_rate: u32) -> (v: Voice)
        requires
            sample_rate >= 1,
        ensures
            v.wf(),
            v.spec_is_finished(),
            !v.started,
            v.sample_rate == sample_rate,
            v.envelope == (Envelope {
                attack_samples: spec_voice_attack_samples(sample_rate),
                decay_samples: spec_voice_decay_samples(sample_rate),
                sustain_level: 19661,
                release_samples: spec_voice_release_samples(sample_rate),
                stage: EnvStage::Idle,
                pos: 0,
                release_start: 0,
            }),
            v.release_sample == 0,
            v.phase == 0,
            v.phase_inc == 0,
            v.vel == 0,
            v.abs_pos@ == 0,
    {
        let a = (sample_rate / 200) as u64;
        let d = (sample_rate / 10) as u64;
        let r = (sample_rate / 20) as u64;
        Voice {
            envelope: Envelope {
                attack_samples: if a == 0 {
                    1
                } else {
                    a
                },
                decay_samples: if d == 0 {
                    1
                } else {
                    d
                },
                sustain_level: 19661,
                release_samples: if r == 0 {
                    1
                } else {
                    r
                },
                stage: EnvStage::Idle,
                pos: 0,
                release_start: 0,
            },
            release_sample: 0,
            phase: 0,
            phase_inc: 0,
            vel: 0,
            started: false,
            sample_rate,
            abs_pos: Ghost(0),
        }
    }

    /// Start the note: reset the phase, set the oscillator increment from
    /// the Q16 frequency, scale by velocity, and enter the attack stage.
    /// `at` is the absolute sample index at which the voice starts
    /// rendering. The new state is pinned exactly: everything but the
    /// oscillator, the velocity and the envelope's stage is kept.
    pub fn note_on(&mut self, freq_q16: u64, vel: i64, Ghost(at): Ghost<int>)
        requires
            old(self).wf(),
            0 <= vel <= FP_ONE,
        ensures
            final(self).wf(),
            *final(self) == (Voice {
                phase: 0,
                phase_inc: spec_phase_inc(freq_q16, old(self).sample_rate),
                vel,
                started: true,
                envelope: Envelope { stage: EnvStage::Attack, pos: 0, ..old(self).envelope },
                abs_pos: Ghost(at),
                ..*old(self)
            }),
    {
        let inc128 = (freq_q16 as u128 * 0x1_0000) / (self.sample_rate as u128)
            % 0x1_0000_0000;
        proof {
            vstd::arithmetic::div_mod::lemma_mod_bound(
                (freq_q16 * 0x1_0000) / (self.sample_rate as int),
                0x1_0000_0000,
            );
        }
        self.phase = 0;
        self.phase_inc = inc128 as u64;
        self.vel = vel;
        self.started = true;
        self.envelope.stage = EnvStage::Attack;
        self.envelope.pos = 0;
        self.abs_pos = Ghost(at);
    }

    /// Release the note: the envelope moves into its release stage from the
    /// current level. `at` is the absolute sample index of the release.
    pub fn note_off(&mut self, Ghost(at): Ghost<int>)
        requires
            old(self).wf(),
        ensures
            final(self).wf(),
            final(self).envelope == spec_env_off(old(self).envelope),
            *final(self) == (Voice { envelope: final(self).envelope, ..*old(self) }),
            old(self).abs_pos@ <= at ==> silent_after(
                *final(self),
                at + old(self).envelope.release_samples,
            ),
    {
        if !(self.envelope.stage == EnvStage::Idle) {
            let level = self.envelope.current_level();
            self.envelope.stage = EnvStage::Release;
            self.envelope.pos = 0;
            self.envelope.release_start = level;
        }
    }
}

impl Voice {
    /// Produce one sample and advance the oscillator and the envelope by
    /// one sample, mirroring `spec_voice_out` and `spec_voice_step`.
    pub fn next_sample(&mut self) -> (s: i64)
        requires
            old(self).wf(),
        ensures
            final(self).wf(),
            *final(self) == spec_voice_step(*old(self)),
            s == spec_voice_out(*old(self)),
            -VOICE_PEAK <= s <= VOICE_PEAK,
    {
        proof {
            lemma_voice_out_bounds(*self);
            lemma_env_level_bounds(self.envelope);
            vstd::arithmetic::div_mod::lemma_mod_bound(
                (self.phase + self.phase_inc) as int,
                0x1_0000_0000,
            );
        }
        let w: i64 = if self.phase < 0x8000_0000 {
            ((self.phase / 0x8000) as i64) - FP_ONE
        } else {
            FP_ONE - (((self.phase - 0x8000_0000) / 0x8000) as i64)
        };
        proof {
            lemma_wave_bounds(self.phase);
            assert(w == spec_wave(self.phase));
        }
        let level = self.envelope.next_level();
        self.phase = (self.phase + self.phase_inc) % 0x1_0000_0000;
        proof {
            self.abs_pos@ = self.abs_pos@ + 1;
        }
        if !self.started {
            return 0;
        }
        let mag: u64 = if w >= 0 {
            w as u64
        } else {
            (-w) as u64
        };
        proof {
            assert(mag * (level as u64) <= 0x4000_0000 && mag * (level as u64) * (
            self.vel as u64) <= 0x2000_0000_0000) by (nonlinear_arith)
                requires
                    mag <= 32768,
                    0 <= level <= 32768,
                    0 <= self.vel <= 32768,
            ;
        }
        let m = ((mag * (level as u64) * (self.vel as u64)) / 0x2_0000_0000) as i64;
        proof {
            vstd::arithmetic::div_mod::lemma_div_is_ordered(
                mag * (level as u64) * (self.vel as u64),
                0x2000_0000_0000,
                0x2_0000_0000,
            );
            vstd::arithmetic::div_mod::lemma_div_is_ordered(
                0,
                mag * (level as u64) * (self.vel as u64),
                0x2_0000_0000,
            );
        }
        if w >= 0 {
            m
        } else {
            -m
        }
    }
}

/// The voice's release length in samples for a given rate: 0.05 s, at
/// least one sample.
pub open spec fn spec_voice_release_samples(sample_rate: u32) -> u64 {
    if sample_rate / 20 == 0 {
        1
    } else {
        (sample_rate / 20) as u64
    }
}

/// The voice's attack length in samples: 0.005 s, at least one sample.
pub open spec fn spec_voice_attack_samples(sample_rate: u32) -> u64 {
    if sample_rate / 200 == 0 {
        1
    } else {
        (sample_rate / 200) as u64
    }
}

/// The voice's decay length in samples: 0.1 s, at least one sample.
pub open spec fn spec_voice_decay_samples(sample_rate: u32) -> u64 {
    if sample_rate / 10 == 0 {
        1
    } else {
        (sample_rate / 10) as u64
    }
}

/// The oscillator increment for a Q16 frequency at a sample rate: the
/// fraction of a 32-bit cycle advanced per sample,
/// `freq * 2^32 / (rate * 2^16)` (truncated, then wrapped to 32 bits).
pub open spec fn spec_phase_inc(freq_q16: u64, sample_rate: u32) -> u64 {
    (((freq_q16 * 0x1_0000) / (sample_rate as int)) % 0x1_0000_0000) as u64
}

/// The sample a voice emits in its current state: triangle wave, shaped by
/// the envelope and the velocity, with 1/8 headroom. The division is done
/// on the magnitude, so the result is symmetric around zero.
pub open spec fn spec_voice_out(v: Voice) -> int {
    if !v.started {
        0
    } else {
        let w = spec_wave(v.phase);
        let lvl = spec_env_level(v.envelope);
        let mag = if w >= 0 {
            w
        } else {
            -w
        };
        let m = (mag * lvl * v.vel) / 0x2_0000_0000;
        if w >= 0 {
            m
        } else {
            -m
        }
    }
}

/// The voice one sample later: envelope advanced, phase stepped, absolute
/// position up one.
pub open spec fn spec_voice_step(v: Voice) -> Voice {
    Voice {
        envelope: spec_env_advance(v.envelope),
        phase: ((v.phase + v.phase_inc) % 0x1_0000_0000) as u64,
        abs_pos: Ghost(v.abs_pos@ + 1),
        ..v
    }
}

/// From sample index `bound` on, this voice emits only zeros: it is idle,
/// or it is releasing and the release ends by `bound`.
pub open spec fn silent_after(v: Voice, bound: int) -> bool {
    match v.envelope.stage {
        EnvStage::Idle => true,
        EnvStage::Release => v.abs_pos@ + (v.envelope.release_samples - v.envelope.pos) <= bound,
        _ => false,
    }
}

/// A voice's output magnitude never exceeds `VOICE_PEAK`.
pub proof fn lemma_voice_out_bounds(v: Voice)
    requires
        v.wf(),
    ensures
        -VOICE_PEAK <= spec_voice_out(v) <= VOICE_PEAK,
{
    if v.started {
        lemma_wave_bounds(v.phase);
        lemma_env_level_bounds(v.envelope);
        let w = spec_wave(v.phase);
        let lvl = spec_env_level(v.envelope);
        let mag = if w >= 0 {
            w
        } else {
            -w
        };
        assert(0 <= mag * lvl * v.vel <= 0x2000_0000_0000) by (nonlinear_arith)
            requires
                0 <= mag <= 32768,
                0 <= lvl <= 32768,
                0 <= v.vel <= 32768,
        ;
        vstd::arithmetic::div_mod::lemma_div_is_ordered(
            mag * lvl * v.vel,
            0x2000_0000_0000,
            0x2_0000_0000,
        );
        vstd::arithmetic::div_mod::lemma_div_is_ordered(0, mag * lvl * v.vel, 0x2_0000_0000);
    }
}

/// Stepping preserves well-formedness and silence; a silent-after voice at
/// or past its bound emits zero.
pub proof fn lemma_voice_step_silent(v: Voice, bound: int)
    requires
        v.wf(),
    ensures
        spec_voice_step(v).wf(),
        spec_voice_step(v).abs_pos@ == v.abs_pos@ + 1,
        silent_after(v, bound) ==> silent_after(spec_voice_step(v), bound),
        silent_after(v, bound) && v.abs_pos@ >= bound ==> spec_voice_out(v) == 0,
        v.spec_is_finished() ==> spec_voice_out(v) == 0 && spec_voice_step(v).spec_is_finished(),
{
    vstd::arithmetic::div_mod::lemma_mod_bound((v.phase + v.phase_inc) as int, 0x1_0000_0000);
    if v.spec_is_finished() {
        if v.started {
            assert(spec_env_level(v.envelope) == 0);
            let w = spec_wave(v.phase);
            let mag = if w >= 0 {
                w
            } else {
                -w
            };
            lemma_wave_bounds(v.phase);
            assert(mag * 0 * v.vel == 0) by (nonlinear_arith);
            assert(spec_voice_out(v) == 0) by {
                vstd::arithmetic::div_mod::lemma_div_of0(0x2_0000_0000);
            }
        }
    }
    if silent_after(v, bound) && v.abs_pos@ >= bound {
        match v.envelope.stage {
            EnvStage::Idle => {
                if v.started {
                    let w = spec_wave(v.phase);
                    let mag = if w >= 0 {
                        w
                    } else {
                        -w
                    };
                    lemma_wave_bounds(v.phase);
                    assert(mag * 0 * v.vel == 0) by (nonlinear_arith);
                    vstd::arithmetic::div_mod::lemma_div_of0(0x2_0000_0000);
                }
            },
            EnvStage::Release => {
                // pos < release_samples, so the release has at least one
                // sample left and abs_pos + 1 <= bound: contradiction with
                // abs_pos >= bound
                assert(false);
            },
            _ => {},
        }
    }
}

} // verus!
