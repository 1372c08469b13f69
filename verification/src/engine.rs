//! The audio engine: renders an `EventList` to Q15 mono samples, and to
//! interleaved stereo i16 PCM.
//!
//! The engine extracts the tempo from the events, schedules each note at
//! exact sample offsets, chooses the output length by the end-mode policy,
//! and runs a block loop of 128 samples that activates voices, releases
//! them at their gate-off sample, mixes them, and drops them once their
//! envelopes finish.

use crate::compiler::{EndMode, Event, EventKind, EventList, EventListModel, EventModel,
    EventKindModel};
use crate::mixer::Mixer;
use crate::pitch::{note_to_frequency, spec_note_to_frequency};
use crate::rat::{mul_wide, Rat};
use crate::strutil::{parse_rat, spec_parse_rat, str_eq};
use crate::voice::{lemma_mul_div_le, lemma_voice_step_silent, silent_after, spec_env_off,
    spec_phase_inc, spec_voice_attack_samples, spec_voice_decay_samples, spec_voice_out,
    spec_voice_release_samples, spec_voice_step, EnvStage, Envelope, Voice, FP_ONE, VOICE_PEAK};
use vstd::prelude::*;

verus! {

/// The number of samples rendered at a time.
pub const BLOCK_SIZE: usize = 128;

/// The polyphony budget: notes past this many simultaneous voices drop.
pub const MAX_VOICES: usize = 64;

/// The largest magnitude a mixed sample can reach: every one of the 64
/// voices at its peak.
pub const MAX_AMP: i64 = 262144;

/// A note with resolved sample offsets: when it starts, when its gate ends,
/// its Q16 frequency and its Q15 velocity.
#[derive(Clone, Copy, Debug, PartialEq, Eq, Structural)]
pub struct ScheduledNote {
    pub start_sample: usize,
    pub release_sample: usize,
    pub freq: u64,
    pub vel: i64,
}

/// One step of tempo extraction: the last `track.beatsPerMinute` property
/// whose value parses as a positive number wins.
pub open spec fn spec_bpm_step(cur: Rat, e: EventModel) -> Rat {
    match e.kind {
        EventKindModel::SetProperty { target, value } => if target == "track.beatsPerMinute"@ {
            match spec_parse_rat(value) {
                Some(r) => if r.num >= 1 && r.den >= 1 {
                    r
                } else {
                    cur
                },
                None => cur,
            }
        } else {
            cur
        },
        _ => cur,
    }
}

pub open spec fn spec_bpm_fold(s: Seq<EventModel>, cur: Rat) -> Rat
    decreases s.len(),
{
    if s.len() == 0 {
        cur
    } else {
        spec_bpm_fold(s.drop_first(), spec_bpm_step(cur, s[0]))
    }
}

/// The tempo the engine renders at: folded over the events, starting from
/// the engine's default.
pub open spec fn spec_bpm(s: Seq<EventModel>, initial: Rat) -> Rat {
    spec_bpm_fold(s, initial)
}

/// Beats to samples at a tempo: `floor(t * 60 / bpm * rate)`, computed
/// exactly on the rationals. `None` when the 128-bit product overflows.
pub open spec fn spec_beats_to_samples(t: Rat, bpm: Rat, rate: u32) -> Option<int> {
    let prod = t.num * 60 * rate * bpm.den;
    if prod > u128::MAX {
        None
    } else {
        Some(prod / (t.den * bpm.num))
    }
}

/// Saturating addition capped at `usize::MAX`.
pub open spec fn sat_add_usize(a: int, b: int) -> int {
    if a + b > usize::MAX {
        usize::MAX as int
    } else {
        a + b
    }
}

/// The sample count a beat position maps to, capped at `usize::MAX`.
pub open spec fn spec_samples_capped(t: Rat, bpm: Rat, rate: u32) -> int {
    match spec_beats_to_samples(t, bpm, rate) {
        Some(v) => if v > usize::MAX {
            usize::MAX as int
        } else {
            v
        },
        None => usize::MAX as int,
    }
}

/// The scheduled form of one event: `None` for non-notes, unknown pitches,
/// and overflowing sample computations (such notes are skipped).
pub open spec fn spec_sched_note(e: EventModel, bpm: Rat, rate: u32) -> Option<ScheduledNote> {
    match e.kind {
        EventKindModel::Note { pitch, velocity, gate } => match spec_note_to_frequency(pitch) {
            Some(f) => match spec_beats_to_samples(e.time, bpm, rate) {
                Some(st) => if st > usize::MAX {
                    None
                } else {
                    match spec_beats_to_samples(gate, bpm, rate) {
                        Some(g) => {
                            let rel = sat_add_usize(st, g);
                            let v: u64 = if velocity > 127 {
                                127
                            } else {
                                velocity
                            };
                            Some(
                                ScheduledNote {
                                    start_sample: st as usize,
                                    release_sample: rel as usize,
                                    freq: f,
                                    vel: ((v * 32768) / 127) as i64,
                                },
                            )
                        },
                        None => None,
                    }
                },
                None => None,
            },
            None => None,
        },
        _ => None,
    }
}

/// All notes of an event sequence, scheduled, in event order.
pub open spec fn spec_scheduled(s: Seq<EventModel>, bpm: Rat, rate: u32) -> Seq<ScheduledNote>
    decreases s.len(),
{
    if s.len() == 0 {
        Seq::empty()
    } else {
        (match spec_sched_note(s[0], bpm, rate) {
            Some(n) => seq![n],
            None => Seq::empty(),
        }) + spec_scheduled(s.drop_first(), bpm, rate)
    }
}

/// The largest `release_sample + extra` over the scheduled notes (each
/// capped at `usize::MAX`), or 0 with no notes.
pub open spec fn spec_max_end(sched: Seq<ScheduledNote>, extra: int) -> int
    decreases sched.len(),
{
    if sched.len() == 0 {
        0
    } else {
        let h = sat_add_usize(sched[0].release_sample as int, extra);
        let rest = spec_max_end(sched.drop_first(), extra);
        if h >= rest {
            h
        } else {
            rest
        }
    }
}

proof fn lemma_max_end_bounds(sched: Seq<ScheduledNote>, extra: int)
    requires
        extra >= 0,
    ensures
        0 <= spec_max_end(sched, extra),
        forall|i: int|
            0 <= i < sched.len() ==> sat_add_usize(#[trigger] sched[i].release_sample as int, extra)
                <= spec_max_end(sched, extra),
    decreases sched.len(),
{
    if sched.len() != 0 {
        lemma_max_end_bounds(sched.drop_first(), extra);
        assert(forall|i: int| 1 <= i < sched.len() ==> sched[i] == sched.drop_first()[i - 1]);
    }
}

/// The extra samples each end mode adds past a note's gate-off.
pub open spec fn spec_end_mode_extra(mode: EndMode, rate: u32) -> int {
    match mode {
        EndMode::Gate => 0,
        EndMode::Release => rate as int / 20,
        EndMode::Tail => rate as int / 20 + rate as int / 2,
    }
}

/// The number of samples `render` produces: the cursor position in samples,
/// or the latest note end under the end-mode policy, whichever is larger.
pub open spec fn spec_render_len(el: EventListModel, rate: u32, bpm0: Rat) -> int {
    let bpm = spec_bpm(el.events, bpm0);
    let cursor = spec_samples_capped(el.total_beats, bpm, rate);
    let sched = spec_scheduled(el.events, bpm, rate);
    let m = spec_max_end(sched, spec_end_mode_extra(el.end_mode, rate));
    if cursor >= m {
        cursor
    } else {
        m
    }
}

/// Past this sample index the output is provably silent: every scheduled
/// note has been released and its voice's envelope has fully closed.
pub open spec fn spec_silence_start(el: EventListModel, rate: u32, bpm0: Rat) -> int {
    let bpm = spec_bpm(el.events, bpm0);
    spec_max_end(
        spec_scheduled(el.events, bpm, rate),
        spec_voice_release_samples(rate) as int,
    )
}

/// Every event's beat position is well formed, and every note's gate is.
pub open spec fn spec_events_wf(s: Seq<EventModel>) -> bool {
    forall|i: int|
        0 <= i < s.len() ==> (#[trigger] s[i]).time.wf() && match s[i].kind {
            EventKindModel::Note { gate, .. } => gate.wf(),
            _ => true,
        }
}

/// Rationals the engine divides by must be well formed, so an event list
/// handed to the engine carries well-formed beat positions and gates.
pub open spec fn spec_event_list_wf(el: EventListModel) -> bool {
    &&& el.total_beats.wf()
    &&& spec_events_wf(el.events)
}

/// Compute `floor(t * 60 / bpm * rate)` exactly, mirroring
/// `spec_beats_to_samples`.
fn beats_to_samples(t: &Rat, bpm: &Rat, rate: u32) -> (r: Option<u128>)
    requires
        t.wf(),
        bpm.num >= 1,
        bpm.den >= 1,
    ensures
        match r {
            Some(v) => spec_beats_to_samples(*t, *bpm, rate) == Some(v as int),
            None => spec_beats_to_samples(*t, *bpm, rate) is None,
        },
{
    let den = mul_wide(t.den, bpm.num);
    proof {
        assert(t.den * bpm.num >= 1) by (nonlinear_arith)
            requires
                t.den >= 1,
                bpm.num >= 1,
        ;
    }
    let p1 = match (t.num as u128).checked_mul(60) {
        Some(v) => v,
        None => {
            proof {
                lemma_prod_monotone(t.num as int * 60, rate as int, bpm.den as int);
            }
            return None;
        },
    };
    let p2 = match p1.checked_mul(rate as u128) {
        Some(v) => v,
        None => {
            proof {
                lemma_prod_monotone2(t.num as int * 60 * rate, bpm.den as int);
            }
            return None;
        },
    };
    let p3 = match p2.checked_mul(bpm.den as u128) {
        Some(v) => v,
        None => {
            return None;
        },
    };
    Some(p3 / den)
}

proof fn lemma_prod_monotone(a: int, b: int, c: int)
    requires
        a > u128::MAX,
        b >= 1,
        c >= 1,
    ensures
        a * b * c > u128::MAX,
{
    assert(a * b >= a) by (nonlinear_arith)
        requires
            a >= 0,
            b >= 1,
    ;
    assert(a * b * c >= a * b) by (nonlinear_arith)
        requires
            a * b >= 0,
            c >= 1,
    ;
}

proof fn lemma_prod_monotone2(a: int, b: int)
    requires
        a > u128::MAX,
        b >= 1,
    ensures
        a * b > u128::MAX,
{
    assert(a * b >= a) by (nonlinear_arith)
        requires
            a >= 0,
            b >= 1,
    ;
}

/// `spec_samples_capped`, executable.
fn samples_capped(t: &Rat, bpm: &Rat, rate: u32) -> (r: usize)
    requires
        t.wf(),
        bpm.num >= 1,
        bpm.den >= 1,
    ensures
        r as int == spec_samples_capped(*t, *bpm, rate),
{
    match beats_to_samples(t, bpm, rate) {
        Some(v) => if v > usize::MAX as u128 {
            usize::MAX
        } else {
            v as usize
        },
        None => usize::MAX,
    }
}

/// Every scheduled note's velocity lies in `[0, FP_ONE]`, and its release
/// comes no earlier than its start.
proof fn lemma_scheduled_props(s: Seq<EventModel>, bpm: Rat, rate: u32)
    requires
        spec_events_wf(s),
        bpm.num >= 1,
        bpm.den >= 1,
    ensures
        forall|i: int|
            0 <= i < spec_scheduled(s, bpm, rate).len() ==> 0 <= (#[trigger] spec_scheduled(
                s,
                bpm,
                rate,
            )[i]).vel <= FP_ONE,
        forall|i: int|
            0 <= i < spec_scheduled(s, bpm, rate).len() ==> (#[trigger] spec_scheduled(
                s,
                bpm,
                rate,
            )[i]).release_sample >= spec_scheduled(s, bpm, rate)[i].start_sample,
    decreases s.len(),
{
    if s.len() != 0 {
        assert(forall|i: int| 1 <= i < s.len() ==> s[i] == s.drop_first()[i - 1]);
        assert(spec_events_wf(s.drop_first()));
        lemma_scheduled_props(s.drop_first(), bpm, rate);
        let whole = spec_scheduled(s, bpm, rate);
        let rest = spec_scheduled(s.drop_first(), bpm, rate);
        match spec_sched_note(s[0], bpm, rate) {
            Some(n) => {
                match s[0].kind {
                    EventKindModel::Note { gate, .. } => {
                        assert(s[0].time.wf() && gate.wf());
                        let g = spec_beats_to_samples(gate, bpm, rate)->Some_0;
                        let prod = gate.num * 60 * rate * bpm.den;
                        let d = gate.den * bpm.num;
                        assert(gate.num * 60 * rate * bpm.den >= 0 && gate.den * bpm.num >= 1)
                            by (nonlinear_arith)
                            requires
                                gate.num >= 0,
                                gate.den >= 1,
                                bpm.num >= 1,
                                bpm.den >= 1,
                                rate >= 0,
                        ;
                        vstd::arithmetic::div_mod::lemma_div_of0(d);
                        vstd::arithmetic::div_mod::lemma_div_is_ordered(0, prod, d);
                        assert(g >= 0);
                        let st = spec_beats_to_samples(s[0].time, bpm, rate)->Some_0;
                        let prod2 = s[0].time.num * 60 * rate * bpm.den;
                        let d2 = s[0].time.den * bpm.num;
                        assert(s[0].time.num * 60 * rate * bpm.den >= 0 && s[0].time.den
                            * bpm.num >= 1) by (nonlinear_arith)
                            requires
                                s[0].time.num >= 0,
                                s[0].time.den >= 1,
                                bpm.num >= 1,
                                bpm.den >= 1,
                                rate >= 0,
                        ;
                        vstd::arithmetic::div_mod::lemma_div_of0(d2);
                        vstd::arithmetic::div_mod::lemma_div_is_ordered(0, prod2, d2);
                        assert(st >= 0);
                        assert(n.release_sample >= n.start_sample);
                    },
                    _ => {},
                }
                match s[0].kind {
                    EventKindModel::Note { velocity, .. } => {
                        let v: u64 = if velocity > 127 {
                            127
                        } else {
                            velocity
                        };
                        lemma_mul_div_le(32768, v as int, 127);
                        assert(v * 32768 == 32768 * v) by (nonlinear_arith);
                        assert(32768 * (v as int) / 127 <= 32768int * 127 / 127) by {
                            assert(32768 * (v as int) <= 32768int * 127) by (nonlinear_arith)
                                requires
                                    v <= 127,
                            ;
                            vstd::arithmetic::div_mod::lemma_div_is_ordered(
                                32768 * (v as int),
                                32768int * 127,
                                127,
                            );
                        }
                        vstd::arithmetic::div_mod::lemma_div_is_ordered(
                            0,
                            32768 * (v as int),
                            127,
                        );
                    },
                    _ => {},
                }
                assert(whole == seq![n] + rest);
                assert(forall|i: int| 1 <= i < whole.len() ==> whole[i] == rest[i - 1]);
                assert(whole[0] == n);
            },
            None => {
                assert(whole =~= rest);
            },
        }
    }
}

/// Every element of `a` is an element of `b`.
pub open spec fn sched_elems_of(a: Seq<ScheduledNote>, b: Seq<ScheduledNote>) -> bool {
    forall|i: int|
        0 <= i < a.len() ==> exists|j: int| 0 <= j < b.len() && #[trigger] a[i] == #[trigger] b[j]
}

/// Insert `e` after every note whose start is `<=` its start: the
/// insertion step of the stable sort by start sample.
pub open spec fn spec_sched_insert(s: Seq<ScheduledNote>, e: ScheduledNote) -> Seq<ScheduledNote>
    decreases s.len(),
{
    if s.len() == 0 {
        seq![e]
    } else if s.last().start_sample <= e.start_sample {
        s.push(e)
    } else {
        spec_sched_insert(s.drop_last(), e).push(s.last())
    }
}

/// Stable sort by start sample: insert the notes one by one, in order.
pub open spec fn spec_sched_sort(s: Seq<ScheduledNote>) -> Seq<ScheduledNote>
    decreases s.len(),
{
    if s.len() == 0 {
        Seq::empty()
    } else {
        spec_sched_insert(spec_sched_sort(s.drop_last()), s.last())
    }
}

proof fn lemma_sched_insert_shape(s: Seq<ScheduledNote>, e: ScheduledNote, k: int)
    requires
        0 <= k <= s.len(),
        forall|j: int| k <= j < s.len() ==> (#[trigger] s[j].start_sample) > e.start_sample,
        k > 0 ==> s[k - 1].start_sample <= e.start_sample,
    ensures
        spec_sched_insert(s, e) == s.subrange(0, k) + seq![e] + s.subrange(k, s.len() as int),
    decreases s.len(),
{
    if s.len() == 0 || k == s.len() {
        assert(spec_sched_insert(s, e) =~= s.subrange(0, k) + seq![e] + s.subrange(
            k,
            s.len() as int,
        ));
    } else {
        let dl = s.drop_last();
        assert(forall|j: int| k <= j < dl.len() ==> (#[trigger] dl[j].start_sample)
            > e.start_sample);
        lemma_sched_insert_shape(dl, e, k);
        assert(spec_sched_insert(s, e) =~= s.subrange(0, k) + seq![e] + s.subrange(
            k,
            s.len() as int,
        ));
    }
}

/// Pairwise sortedness by start sample.
pub open spec fn spec_sched_sorted(s: Seq<ScheduledNote>) -> bool {
    forall|i: int, j: int|
        0 <= i <= j < s.len() ==> #[trigger] s[i].start_sample <= #[trigger] s[j].start_sample
}

/// Sort scheduled notes by start sample (insertion sort, stable): the
/// result is exactly `spec_sched_sort` of the input; it is sorted and
/// holds exactly elements of the input.
#[verifier::loop_isolation(false)]
fn sort_scheduled(input: Vec<ScheduledNote>) -> (out: Vec<ScheduledNote>)
    ensures
        out@ == spec_sched_sort(input@),
        out@.len() == input@.len(),
        spec_sched_sorted(out@),
        sched_elems_of(out@, input@),
{
    let n = input.len();
    let mut out: Vec<ScheduledNote> = Vec::new();
    let mut i: usize = 0;
    while i < n
        invariant
            i <= n,
            out@.len() == i,
            out@ == spec_sched_sort(input@.subrange(0, i as int)),
            spec_sched_sorted(out@),
            sched_elems_of(out@, input@),
        decreases n - i,
    {
        let e = input[i];
        let ghost pre = out@;
        let mut k = out.len();
        while k > 0 && out[k - 1].start_sample > e.start_sample
            invariant
                k <= out@.len(),
                forall|j: int| k <= j < out@.len() ==> #[trigger] out@[j].start_sample
                    > e.start_sample,
            decreases k,
        {
            k = k - 1;
        }
        out.insert(k, e);
        proof {
            let kk = k as int;
            assert(out@ =~= pre.subrange(0, kk) + seq![e] + pre.subrange(kk, pre.len() as int));
            lemma_sched_insert_shape(pre, e, kk);
            assert(input@.subrange(0, i as int + 1).drop_last() =~= input@.subrange(0, i as int));
            assert(input@.subrange(0, i as int + 1).last() == input@[i as int]);
            assert(out@ == spec_sched_sort(input@.subrange(0, i as int + 1)));
            assert forall|p: int, q: int| 0 <= p <= q < out@.len() implies #[trigger] out@[p].start_sample
                <= #[trigger] out@[q].start_sample by {
                if p < kk && q == kk {
                    assert(out@[p] == pre[p]);
                    assert(pre[kk - 1].start_sample <= e.start_sample);
                    assert(pre[p].start_sample <= pre[kk - 1].start_sample);
                } else if p == kk && q > kk {
                    assert(out@[q] == pre[q - 1]);
                } else if p < kk && q > kk {
                    assert(out@[p] == pre[p] && out@[q] == pre[q - 1]);
                } else if p < kk && q < kk {
                    assert(out@[p] == pre[p] && out@[q] == pre[q]);
                } else if p > kk && q > kk {
                    assert(out@[p] == pre[p - 1] && out@[q] == pre[q - 1]);
                }
            }
            assert forall|p: int| 0 <= p < out@.len() implies exists|j: int|
                0 <= j < input@.len() && #[trigger] out@[p] == #[trigger] input@[j] by {
                assert(sched_elems_of(pre, input@));
                if p == kk {
                    assert(out@[p] == input@[i as int]);
                } else if p < kk {
                    assert(out@[p] == pre[p]);
                } else {
                    assert(out@[p] == pre[p - 1]);
                }
            }
        }
        i = i + 1;
    }
    proof {
        assert(input@.subrange(0, n as int) =~= input@);
    }
    out
}


/// The voice a scheduled note starts at block position `bs`: a fresh voice
/// for the rate, carrying the note's release sample, with the note struck.
pub open spec fn spec_on_voice(note: ScheduledNote, rate: u32, bs: int) -> Voice {
    Voice {
        envelope: Envelope {
            attack_samples: spec_voice_attack_samples(rate),
            decay_samples: spec_voice_decay_samples(rate),
            sustain_level: 19661,
            release_samples: spec_voice_release_samples(rate),
            stage: EnvStage::Attack,
            pos: 0,
            release_start: 0,
        },
        release_sample: note.release_sample,
        phase: 0,
        phase_inc: spec_phase_inc(note.freq, rate),
        vel: note.vel,
        started: true,
        sample_rate: rate,
        abs_pos: Ghost(bs),
    }
}

/// Activate every scheduled note (from `next` on) that starts before
/// `be`: each becomes a new voice at `bs` unless the polyphony budget is
/// full, in which case the note is dropped. Returns the voices and the
/// next unactivated index.
pub open spec fn spec_activate(
    voices: Seq<Voice>,
    sched: Seq<ScheduledNote>,
    next: int,
    bs: int,
    be: int,
    rate: u32,
) -> (Seq<Voice>, int)
    decreases sched.len() - next,
{
    if next < 0 || next >= sched.len() || sched[next].start_sample >= be {
        (voices, next)
    } else {
        let voices2 = if voices.len() < MAX_VOICES {
            voices.push(spec_on_voice(sched[next], rate, bs))
        } else {
            voices
        };
        spec_activate(voices2, sched, next + 1, bs, be, rate)
    }
}

/// Gate off a voice whose release sample falls inside the block.
pub open spec fn spec_block_off(v: Voice, bs: int, be: int) -> Voice {
    if bs <= v.release_sample < be {
        Voice { envelope: spec_env_off(v.envelope), ..v }
    } else {
        v
    }
}

/// A voice advanced `k` samples: its final state and the `k` samples it
/// emitted, in order.
pub open spec fn spec_voice_render(v: Voice, k: nat) -> (Voice, Seq<i64>)
    decreases k,
{
    if k == 0 {
        (v, Seq::empty())
    } else {
        let s = spec_voice_out(v);
        let r = spec_voice_render(spec_voice_step(v), (k - 1) as nat);
        (r.0, seq![s as i64] + r.1)
    }
}

/// One block of the voice pass, processing the voices from the last to the
/// first (the engine pops them): each is gated off if due, then — unless
/// already finished — renders the whole block and is kept unless its
/// envelope finished. Returns the surviving voices (in processing order)
/// and the block's mixed samples.
pub open spec fn spec_process_voices(voices: Seq<Voice>, bs: int, be: int) -> (Seq<Voice>, Seq<
    i64,
>)
    decreases voices.len(),
{
    if voices.len() == 0 {
        (Seq::empty(), Seq::new((be - bs) as nat, |j: int| 0i64))
    } else {
        let v0 = spec_block_off(voices.last(), bs, be);
        let rest = spec_process_voices(voices.drop_last(), bs, be);
        if v0.spec_is_finished() {
            rest
        } else {
            let r = spec_voice_render(v0, (be - bs) as nat);
            let kept = if r.0.spec_is_finished() {
                rest.0
            } else {
                seq![r.0] + rest.0
            };
            (kept, Seq::new((be - bs) as nat, |j: int| (r.1[j] + rest.1[j]) as i64))
        }
    }
}

/// The block loop: starting at sample `produced` with the given voices and
/// pending notes, the samples rendered up to `total`.
pub open spec fn spec_render_blocks(
    sched: Seq<ScheduledNote>,
    next: int,
    voices: Seq<Voice>,
    produced: int,
    total: int,
    rate: u32,
) -> Seq<i64>
    decreases total - produced,
{
    if produced >= total {
        Seq::empty()
    } else {
        let bs = produced;
        let be = if total - bs > BLOCK_SIZE {
            bs + BLOCK_SIZE
        } else {
            total
        };
        let a = spec_activate(voices, sched, next, bs, be, rate);
        let p = spec_process_voices(a.0, bs, be);
        p.1 + spec_render_blocks(sched, a.1, p.0, be, total, rate)
    }
}

/// The full output of `render`: tempo extracted from the events, the notes
/// scheduled and stably sorted by start, and the block loop run to the
/// end-mode length. `render` returns exactly this sequence, so rendering
/// is a function of the event list, the sample rate and the default tempo.
pub open spec fn spec_render_output(el: EventListModel, rate: u32, bpm0: Rat) -> Seq<i64> {
    let bpm = spec_bpm(el.events, bpm0);
    let sorted = spec_sched_sort(spec_scheduled(el.events, bpm, rate));
    spec_render_blocks(sorted, 0, Seq::empty(), 0, spec_render_len(el, rate, bpm0), rate)
}


/// A voice render of `k` samples emits `k` samples, each within one voice
/// peak, and leaves a well-formed voice with its release bookkeeping and
/// absolute position advanced by `k`.
proof fn lemma_voice_render_props(v: Voice, k: nat)
    requires
        v.wf(),
    ensures
        spec_voice_render(v, k).1.len() == k,
        forall|j: int|
            0 <= j < k ==> -VOICE_PEAK <= #[trigger] spec_voice_render(v, k).1[j] <= VOICE_PEAK,
        spec_voice_render(v, k).0.wf(),
        spec_voice_render(v, k).0.release_sample == v.release_sample,
        spec_voice_render(v, k).0.envelope.release_samples == v.envelope.release_samples,
        spec_voice_render(v, k).0.started == v.started,
        spec_voice_render(v, k).0.abs_pos@ == v.abs_pos@ + k,
        spec_voice_render(v, k).0.sample_rate == v.sample_rate,
    decreases k,
{
    if k > 0 {
        crate::voice::lemma_voice_out_bounds(v);
        lemma_voice_step_silent(v, 0);
        lemma_voice_render_props(spec_voice_step(v), (k - 1) as nat);
        let r = spec_voice_render(spec_voice_step(v), (k - 1) as nat);
        assert(forall|j: int| 1 <= j < k ==> #[trigger] (seq![spec_voice_out(v) as i64]
            + r.1)[j] == r.1[j - 1]);
    }
}

/// A block of the voice pass emits exactly `be - bs` samples, each within
/// one voice peak per processed voice.
proof fn lemma_process_voices_props(voices: Seq<Voice>, bs: int, be: int)
    requires
        bs <= be,
        voices.len() <= MAX_VOICES,
        forall|k: int| 0 <= k < voices.len() ==> (#[trigger] voices[k]).wf(),
    ensures
        spec_process_voices(voices, bs, be).1.len() == be - bs,
        forall|j: int|
            0 <= j < be - bs ==> -VOICE_PEAK * voices.len() <= #[trigger] spec_process_voices(
                voices,
                bs,
                be,
            ).1[j] <= VOICE_PEAK * voices.len(),
    decreases voices.len(),
{
    if voices.len() == 0 {
    } else {
        let dl = voices.drop_last();
        lemma_process_voices_props(dl, bs, be);
        let v0 = spec_block_off(voices.last(), bs, be);
        assert(voices.last().wf());
        assert(v0.wf()) by {
            crate::voice::lemma_env_level_bounds(voices.last().envelope);
        }
        let rest = spec_process_voices(dl, bs, be);
        let whole = spec_process_voices(voices, bs, be);
        if v0.spec_is_finished() {
            assert(forall|j: int|
                0 <= j < be - bs ==> -VOICE_PEAK * dl.len() <= #[trigger] rest.1[j] <= VOICE_PEAK
                    * dl.len());
            assert forall|j: int| 0 <= j < be - bs implies -VOICE_PEAK * voices.len()
                <= #[trigger] whole.1[j] <= VOICE_PEAK * voices.len() by {
                assert(VOICE_PEAK * dl.len() <= VOICE_PEAK * voices.len()) by (nonlinear_arith)
                    requires
                        dl.len() < voices.len(),
                ;
            }
        } else {
            lemma_voice_render_props(v0, (be - bs) as nat);
            let r = spec_voice_render(v0, (be - bs) as nat);
            assert forall|j: int| 0 <= j < be - bs implies -VOICE_PEAK * voices.len()
                <= #[trigger] whole.1[j] <= VOICE_PEAK * voices.len() by {
                assert(-VOICE_PEAK <= r.1[j] <= VOICE_PEAK);
                assert(-VOICE_PEAK * dl.len() <= rest.1[j] <= VOICE_PEAK * dl.len());
                assert(VOICE_PEAK * voices.len() == VOICE_PEAK * dl.len() + VOICE_PEAK)
                    by (nonlinear_arith)
                    requires
                        voices.len() == dl.len() + 1,
                ;
                assert(whole.1[j] == (r.1[j] + rest.1[j]) as i64);
                assert(-0x8000_0000 <= r.1[j] + rest.1[j] <= 0x8000_0000) by (nonlinear_arith)
                    requires
                        -VOICE_PEAK <= r.1[j] <= VOICE_PEAK,
                        -VOICE_PEAK * dl.len() <= rest.1[j] <= VOICE_PEAK * dl.len(),
                        dl.len() < 64,
                ;
            }
        }
    }
}


/// Extract the tempo from the events, mirroring `spec_bpm`: the last
/// `track.beatsPerMinute` property whose value parses as a positive number
/// wins, starting from `initial`.
#[verifier::loop_isolation(false)]
fn extract_bpm(events: &Vec<Event>, initial: Rat) -> (bpm: Rat)
    requires
        initial.num >= 1,
        initial.den >= 1,
    ensures
        bpm == spec_bpm(events@.map_values(|e: Event| e@), initial),
        bpm.num >= 1,
        bpm.den >= 1,
{
    let ghost evs = events@.map_values(|e: Event| e@);
    let mut bpm = Rat { num: initial.num, den: initial.den };
    let nev = events.len();
    proof {
        assert(evs.subrange(0, nev as int) =~= evs);
        assert(bpm == initial);
    }
    let mut i: usize = 0;
    while i < nev
        invariant
            i <= nev,
            bpm.num >= 1,
            bpm.den >= 1,
            spec_bpm(evs, initial) == spec_bpm_fold(evs.subrange(i as int, nev as int), bpm),
        decreases nev - i,
    {
        let ghost rest = evs.subrange(i as int, nev as int);
        proof {
            assert(rest[0] == evs[i as int]);
            assert(rest.drop_first() =~= evs.subrange(i as int + 1, nev as int));
        }
        match &events[i].kind {
            EventKind::SetProperty { target, value } => {
                if str_eq(target.as_str(), "track.beatsPerMinute") {
                    match parse_rat(value.as_str()) {
                        Some(r) => {
                            if r.num >= 1 && r.den >= 1 {
                                bpm = r;
                            }
                        },
                        None => {},
                    }
                }
            },
            _ => {},
        }
        i = i + 1;
    }
    proof {
        assert(evs.subrange(nev as int, nev as int) =~= Seq::<EventModel>::empty());
    }
    bpm
}

/// Schedule every note at exact sample offsets, mirroring `spec_scheduled`:
/// non-notes, unknown pitches and overflowing offsets are skipped.
#[verifier::loop_isolation(false)]
fn build_scheduled(events: &Vec<Event>, bpm: &Rat, rate: u32) -> (r: Vec<ScheduledNote>)
    requires
        spec_events_wf(events@.map_values(|e: Event| e@)),
        bpm.num >= 1,
        bpm.den >= 1,
    ensures
        r@ == spec_scheduled(events@.map_values(|e: Event| e@), *bpm, rate),
{
    let ghost evs = events@.map_values(|e: Event| e@);
    let ghost spec_sched = spec_scheduled(evs, *bpm, rate);
    let nev = events.len();
    let mut scheduled: Vec<ScheduledNote> = Vec::new();
    proof {
        assert(evs.subrange(0, nev as int) =~= evs);
        assert(scheduled@ + spec_scheduled(evs.subrange(0, nev as int), *bpm, rate) =~= spec_sched);
    }
    let mut i: usize = 0;
    while i < nev
        invariant
            i <= nev,
            scheduled@ + spec_scheduled(evs.subrange(i as int, nev as int), *bpm, rate)
                == spec_sched,
        decreases nev - i,
    {
        let ghost rest = evs.subrange(i as int, nev as int);
        proof {
            assert(rest[0] == evs[i as int]);
            assert(rest.drop_first() =~= evs.subrange(i as int + 1, nev as int));
        }
        let ev = &events[i];
        match &ev.kind {
            EventKind::Note { pitch, velocity, gate } => {
                match note_to_frequency(pitch.as_str()) {
                    Some(freq) => {
                        match beats_to_samples(&ev.time, bpm, rate) {
                            Some(st128) => {
                                if st128 <= usize::MAX as u128 {
                                    let st = st128 as usize;
                                    match beats_to_samples(gate, bpm, rate) {
                                        Some(g128) => {
                                            let rel: usize = if g128 > (usize::MAX - st) as u128 {
                                                usize::MAX
                                            } else {
                                                st + g128 as usize
                                            };
                                            let v: u64 = if *velocity > 127 {
                                                127
                                            } else {
                                                *velocity
                                            };
                                            let vel = ((v * 32768) / 127) as i64;
                                            scheduled.push(
                                                ScheduledNote {
                                                    start_sample: st,
                                                    release_sample: rel,
                                                    freq,
                                                    vel,
                                                },
                                            );
                                            proof {
                                                assert(scheduled@ + spec_scheduled(
                                                    rest.drop_first(),
                                                    *bpm,
                                                    rate,
                                                ) =~= spec_sched);
                                            }
                                        },
                                        None => {},
                                    }
                                }
                            },
                            None => {},
                        }
                    },
                    None => {},
                }
            },
            _ => {},
        }
        proof {
            if spec_sched_note(evs[i as int], *bpm, rate) is None {
                assert(spec_scheduled(rest, *bpm, rate) =~= spec_scheduled(
                    rest.drop_first(),
                    *bpm,
                    rate,
                ));
            }
        }
        i = i + 1;
    }
    proof {
        assert(evs.subrange(nev as int, nev as int) =~= Seq::<EventModel>::empty());
        assert(scheduled@ + Seq::<ScheduledNote>::empty() =~= scheduled@);
    }
    scheduled
}

/// The largest `release_sample + extra` over the scheduled notes, capped at
/// `usize::MAX`, mirroring `spec_max_end`.
#[verifier::loop_isolation(false)]
fn compute_max_end(scheduled: &Vec<ScheduledNote>, extra: usize) -> (m: usize)
    ensures
        m as int == spec_max_end(scheduled@, extra as int),
{
    let ghost spec_sched = scheduled@;
    let mut max_end: usize = 0;
    let ns = scheduled.len();
    proof {
        assert(spec_sched.subrange(0, ns as int) =~= spec_sched);
    }
    let mut i: usize = 0;
    while i < ns
        invariant
            i <= ns,
            spec_max_end(spec_sched, extra as int) == {
                let rest = spec_max_end(spec_sched.subrange(i as int, ns as int), extra as int);
                if max_end as int >= rest {
                    max_end as int
                } else {
                    rest
                }
            },
        decreases ns - i,
    {
        let ghost rest = spec_sched.subrange(i as int, ns as int);
        proof {
            assert(rest[0] == spec_sched[i as int]);
            assert(rest.drop_first() =~= spec_sched.subrange(i as int + 1, ns as int));
        }
        let n = scheduled[i];
        let e: usize = if extra > usize::MAX - n.release_sample {
            usize::MAX
        } else {
            n.release_sample + extra
        };
        if e > max_end {
            max_end = e;
        }
        i = i + 1;
    }
    proof {
        assert(spec_sched.subrange(ns as int, ns as int) =~= Seq::<ScheduledNote>::empty());
    }
    max_end
}

/// A voice the engine holds mid-render, at absolute sample position `pos`:
/// well formed, with this engine's release length, aligned to `pos` unless
/// finished, bounded by the silence horizon, and already silent when its
/// release sample has passed.
pub open spec fn voice_ok(v: Voice, rate: u32, pos: int, sil: int) -> bool {
    &&& v.wf()
    &&& v.started
    &&& v.envelope.release_samples == spec_voice_release_samples(rate)
    &&& (v.spec_is_finished() || v.abs_pos@ == pos)
    &&& sat_add_usize(v.release_sample as int, spec_voice_release_samples(rate) as int) <= sil
    &&& (v.release_sample < pos ==> silent_after(
        v,
        v.release_sample + spec_voice_release_samples(rate),
    ))
}

/// The audio rendering engine: a sample rate, a default tempo (used when
/// the events set none), and the fixed polyphony budget.
pub struct AudioEngine {
    pub sample_rate: u32,
    pub bpm: Rat,
    pub max_voices: usize,
}

impl AudioEngine {
    /// The engine's parameters make sense: a positive rate, a positive
    /// tempo, and the fixed polyphony budget.
    pub open spec fn wf(self) -> bool {
        &&& self.sample_rate >= 1
        &&& self.bpm.num >= 1
        &&& self.bpm.den >= 1
        &&& self.max_voices == MAX_VOICES
    }

    /// An engine at the default tempo of 120 beats per minute with the
    /// polyphony budget of `MAX_VOICES`.
    pub fn new(sample_rate: u32) -> (e: AudioEngine)
        requires
            sample_rate >= 1,
        ensures
            e.wf(),
            e.sample_rate == sample_rate,
            e.bpm == (Rat { num: 120, den: 1 }),
    {
        AudioEngine { sample_rate, bpm: Rat { num: 120, den: 1 }, max_voices: MAX_VOICES }
    }

    /// Render an event list to mono Q15 samples.
    ///
    /// The output is pinned exactly: it equals `spec_render_output`, the
    /// functional model of the whole engine (tempo extraction, scheduling,
    /// the stable sort and the block loop), so rendering is a function of
    /// the event list, the sample rate and the default tempo. In addition:
    /// the length is exactly the end-mode formula
    /// (`spec_render_len`). Every sample is within 64 voice peaks; with at
    /// most eight scheduled notes it is within `[-FP_ONE, FP_ONE]`; with no
    /// scheduled notes the output is all zeros; and past every note's
    /// release plus the envelope's release time (`spec_silence_start`) the
    /// output is zero.
    #[verifier::loop_isolation(false)]
    #[verifier::rlimit(100)]
    #[verifier::spinoff_prover]
    pub fn render(&self, event_list: &EventList) -> (out: Vec<i64>)
        requires
            self.wf(),
            spec_event_list_wf(event_list@),
        ensures
            out@ == spec_render_output(event_list@, self.sample_rate, self.bpm),
            out@.len() == spec_render_len(event_list@, self.sample_rate, self.bpm),
            forall|i: int| 0 <= i < out@.len() ==> -MAX_AMP <= #[trigger] out@[i] <= MAX_AMP,
            spec_scheduled(
                event_list@.events,
                spec_bpm(event_list@.events, self.bpm),
                self.sample_rate,
            ).len() == 0 ==> forall|i: int| 0 <= i < out@.len() ==> #[trigger] out@[i] == 0,
            spec_scheduled(
                event_list@.events,
                spec_bpm(event_list@.events, self.bpm),
                self.sample_rate,
            ).len() <= 8 ==> forall|i: int|
                0 <= i < out@.len() ==> -FP_ONE <= #[trigger] out@[i] <= FP_ONE,
            forall|i: int|
                spec_silence_start(event_list@, self.sample_rate, self.bpm) <= i < out@.len()
                    ==> #[trigger] out@[i] == 0,
    {
        let rate = self.sample_rate;
        let ghost evs = event_list@.events;

        let bpm = extract_bpm(&event_list.events, self.bpm);
        let cursor_samples = samples_capped(&event_list.total_beats, &bpm, rate);

        let ghost spec_sched = spec_scheduled(evs, bpm, rate);
        let scheduled = build_scheduled(&event_list.events, &bpm, rate);

        // Output length by end-mode policy.
        let extra: usize = match event_list.end_mode {
            EndMode::Gate => 0,
            EndMode::Release => (rate / 20) as usize,
            EndMode::Tail => (rate / 20 + rate / 2) as usize,
        };
        let max_end = compute_max_end(&scheduled, extra);
        let total: usize = if cursor_samples >= max_end {
            cursor_samples
        } else {
            max_end
        };
        proof {
            assert(total as int == spec_render_len(event_list@, rate, self.bpm));
        }

        // The silence horizon: past it, every voice has fully released.
        let ghost vrs = spec_voice_release_samples(rate) as int;
        let ghost sil = spec_silence_start(event_list@, rate, self.bpm);
        proof {
            lemma_max_end_bounds(spec_sched, vrs);
            lemma_scheduled_props(evs, bpm, rate);
        }

        let sched = sort_scheduled(scheduled);
        let ghost full = spec_render_output(event_list@, rate, self.bpm);
        proof {
            assert(sched@ == spec_sched_sort(spec_sched));
            assert(full == spec_render_blocks(sched@, 0, Seq::empty(), 0, total as int, rate));
        }

        // The block loop.
        let mut voices: Vec<Voice> = Vec::new();
        let mut out: Vec<i64> = Vec::new();
        let mut mixer = Mixer::new();
        let mut next: usize = 0;
        proof {
            assert(voices@ =~= Seq::<Voice>::empty());
            assert(out@ =~= Seq::<i64>::empty());
            assert(out@ + spec_render_blocks(
                sched@,
                next as int,
                voices@,
                out@.len() as int,
                total as int,
                rate,
            ) =~= spec_render_blocks(sched@, 0, Seq::empty(), 0, total as int, rate));
        }
        while out.len() < total
            invariant
                out@.len() <= total,
                full == out@ + spec_render_blocks(
                    sched@,
                    next as int,
                    voices@,
                    out@.len() as int,
                    total as int,
                    rate,
                ),
                next <= sched@.len(),
                voices@.len() <= next,
                voices@.len() <= MAX_VOICES,
                forall|k: int|
                    0 <= k < voices@.len() ==> voice_ok(
                        #[trigger] voices@[k],
                        rate,
                        out@.len() as int,
                        sil,
                    ),
                forall|j: int| next <= j < sched@.len() ==> #[trigger] sched@[j].start_sample
                    >= out@.len(),
                forall|i: int| 0 <= i < out@.len() ==> -MAX_AMP <= #[trigger] out@[i] <= MAX_AMP,
                spec_sched.len() == 0 ==> forall|i: int|
                    0 <= i < out@.len() ==> #[trigger] out@[i] == 0,
                spec_sched.len() <= 8 ==> forall|i: int|
                    0 <= i < out@.len() ==> -FP_ONE <= #[trigger] out@[i] <= FP_ONE,
                forall|i: int| sil <= i < out@.len() ==> #[trigger] out@[i] == 0,
            decreases total - out@.len(),
        {
            let block_start = out.len();
            let block_end = if total - block_start > BLOCK_SIZE {
                block_start + BLOCK_SIZE
            } else {
                total
            };
            let this_block = block_end - block_start;
            let ghost va0 = voices@;
            let ghost na0 = next as int;
            let ghost out0 = out@;

            // Activate notes that start in this block.
            while next < sched.len() && sched[next].start_sample < block_end
                invariant
                    spec_activate(
                        voices@,
                        sched@,
                        next as int,
                        block_start as int,
                        block_end as int,
                        rate,
                    ) == spec_activate(
                        va0,
                        sched@,
                        na0,
                        block_start as int,
                        block_end as int,
                        rate,
                    ),
                    next <= sched@.len(),
                    voices@.len() <= next,
                    voices@.len() <= MAX_VOICES,
                    forall|k: int|
                        0 <= k < voices@.len() ==> voice_ok(
                            #[trigger] voices@[k],
                            rate,
                            block_start as int,
                            sil,
                        ),
                    forall|j: int| next <= j < sched@.len() ==> #[trigger] sched@[j].start_sample
                        >= block_start,
                decreases sched@.len() - next,
            {
                if voices.len() < self.max_voices {
                    let note = sched[next];
                    proof {
                        let j = choose|j: int|
                            0 <= j < spec_sched.len() && sched@[next as int] == spec_sched[j];
                        assert(sat_add_usize(note.release_sample as int, vrs) <= sil);
                        assert(0 <= note.vel <= FP_ONE);
                    }
                    let mut v = Voice::new(rate);
                    v.release_sample = note.release_sample;
                    v.note_on(note.freq, note.vel, Ghost(block_start as int));
                    proof {
                        assert(note.release_sample >= block_start);
                        assert(!v.spec_is_finished());
                        assert(voice_ok(v, rate, block_start as int, sil));
                        assert(v == spec_on_voice(note, rate, block_start as int));
                    }
                    voices.push(v);
                }
                next = next + 1;
            }

            // Release, render and mix each voice; keep the unfinished ones.
            let ghost va1 = voices@;
            let ghost pv = spec_process_voices(va1, block_start as int, block_end as int);
            proof {
                assert((voices@, next as int) == spec_activate(
                    va0,
                    sched@,
                    na0,
                    block_start as int,
                    block_end as int,
                    rate,
                ));
                assert(forall|k: int| 0 <= k < va1.len() ==> (#[trigger] va1[k]).wf());
                lemma_process_voices_props(va1, block_start as int, block_end as int);
            }
            mixer.clear(this_block);
            let n0 = voices.len();
            let mut kept: Vec<Voice> = Vec::new();
            proof {
                assert(pv.0 =~= kept@ + spec_process_voices(
                    voices@,
                    block_start as int,
                    block_end as int,
                ).0);
            }
            while voices.len() > 0
                invariant
                    pv == spec_process_voices(va1, block_start as int, block_end as int),
                    pv.0 == kept@ + spec_process_voices(
                        voices@,
                        block_start as int,
                        block_end as int,
                    ).0,
                    forall|q: int|
                        0 <= q < this_block ==> #[trigger] pv.1[q] == mixer.buf@[q]
                            + spec_process_voices(
                            voices@,
                            block_start as int,
                            block_end as int,
                        ).1[q],
                    voices@.len() <= n0,
                    n0 <= MAX_VOICES,
                    n0 <= next,
                    kept@.len() <= n0 - voices@.len(),
                    mixer.buf@.len() == this_block,
                    this_block == block_end - block_start,
                    block_end <= total,
                    forall|k: int|
                        0 <= k < voices@.len() ==> voice_ok(
                            #[trigger] voices@[k],
                            rate,
                            block_start as int,
                            sil,
                        ),
                    forall|k: int|
                        0 <= k < kept@.len() ==> voice_ok(
                            #[trigger] kept@[k],
                            rate,
                            block_end as int,
                            sil,
                        ),
                    forall|j: int|
                        0 <= j < this_block ==> -VOICE_PEAK * (n0 - voices@.len()) <= #[trigger] mixer.buf@[j]
                            <= VOICE_PEAK * (n0 - voices@.len()),
                    forall|j: int|
                        0 <= j < this_block && sil <= block_start + j ==> #[trigger] mixer.buf@[j]
                            == 0,
                decreases voices@.len(),
            {
                let ghost processed_pre = n0 - voices@.len();
                let ghost w0 = voices@;
                let mut v = match voices.pop() {
                    Some(v) => v,
                    None => {
                        proof {
                            assert(false);
                        }
                        break;
                    },
                };
                proof {
                    assert(v == w0.last());
                    assert(voices@ == w0.drop_last());
                    lemma_process_voices_props(w0.drop_last(), block_start as int, block_end as int);
                }
                // Gate off: the voice's own release sample falls in this block.
                if v.release_sample >= block_start && v.release_sample < block_end {
                    let ghost vpre = v;
                    v.note_off(Ghost(block_start as int));
                    proof {
                        if vpre.envelope.stage == EnvStage::Idle {
                            assert(v.envelope.stage == EnvStage::Idle);
                        } else {
                            assert(vpre.abs_pos@ == block_start);
                        }
                        assert(silent_after(v, block_start as int + vrs));
                        assert(silent_after(v, v.release_sample + vrs));
                    }
                }
                proof {
                    assert(v == spec_block_off(w0.last(), block_start as int, block_end as int));
                }
                let ghost voff = v;
                let ghost srest = spec_process_voices(
                    w0.drop_last(),
                    block_start as int,
                    block_end as int,
                );
                if !v.is_finished() {
                    let ghost rr = spec_voice_render(voff, this_block as nat);
                    let ghost buf0 = mixer.buf@;
                    proof {
                        lemma_voice_render_props(voff, this_block as nat);
                        assert(rr.1.subrange(0, this_block as int) =~= rr.1);
                    }
                    let mut j: usize = 0;
                    while j < this_block
                        invariant
                            spec_voice_render(v, (this_block - j) as nat).0 == rr.0,
                            spec_voice_render(v, (this_block - j) as nat).1 == rr.1.subrange(
                                j as int,
                                this_block as int,
                            ),
                            forall|q: int|
                                0 <= q < j ==> #[trigger] mixer.buf@[q] == buf0[q] + rr.1[q],
                            forall|q: int| j <= q < this_block ==> #[trigger] mixer.buf@[q]
                                == buf0[q],
                            buf0.len() == this_block,
                            j <= this_block,
                            v.wf(),
                            v.envelope.release_samples == spec_voice_release_samples(rate),
                            v.abs_pos@ == block_start + j,
                            sat_add_usize(v.release_sample as int, vrs) <= sil,
                            v.release_sample < block_end ==> silent_after(
                                v,
                                v.release_sample + vrs,
                            ),
                            mixer.buf@.len() == this_block,
                            forall|q: int|
                                0 <= q < j ==> -VOICE_PEAK * (processed_pre + 1) <= #[trigger] mixer.buf@[q]
                                    <= VOICE_PEAK * (processed_pre + 1),
                            forall|q: int|
                                j <= q < this_block ==> -VOICE_PEAK * processed_pre
                                    <= #[trigger] mixer.buf@[q] <= VOICE_PEAK * processed_pre,
                            forall|q: int|
                                0 <= q < this_block && sil <= block_start + q
                                    ==> #[trigger] mixer.buf@[q] == 0,
                        decreases this_block - j,
                    {
                        proof {
                            lemma_voice_step_silent(v, v.release_sample + vrs);
                            if sil <= block_start + j {
                                // past the silence horizon the voice must be
                                // released and fully faded
                                assert(sat_add_usize(v.release_sample as int, vrs) <= sil);
                                if v.release_sample as int + vrs <= usize::MAX {
                                    assert(v.release_sample < block_end);
                                    assert(spec_voice_out(v) == 0);
                                } else {
                                    assert(block_start + j < total <= usize::MAX as int);
                                    assert(false);
                                }
                            }
                        }
                        proof {
                            let kleft = (this_block - j) as nat;
                            let tail = spec_voice_render(spec_voice_step(v), (kleft - 1) as nat).1;
                            assert(rr.1.subrange(j as int, this_block as int) == seq![
                                spec_voice_out(v) as i64,
                            ] + tail);
                            assert(spec_voice_render(v, kleft).1[0] == spec_voice_out(v) as i64);
                            assert(rr.1[j as int] == spec_voice_out(v) as i64);
                            assert(forall|q: int| 0 <= q < tail.len() ==> #[trigger] tail[q] == (
                            seq![spec_voice_out(v) as i64] + tail)[q + 1]);
                            assert(tail =~= rr.1.subrange(j as int + 1, this_block as int));
                        }
                        let s = v.next_sample();
                        mixer.add(j, s);
                        j = j + 1;
                    }
                    proof {
                        assert(v == rr.0);
                        // thread the block sums and the kept voices through
                        // one unfolding of the voice pass
                        assert(spec_process_voices(w0, block_start as int, block_end as int).1
                            =~= Seq::new(
                            this_block as nat,
                            |q: int| (rr.1[q] + srest.1[q]) as i64,
                        ));
                        assert forall|q: int| 0 <= q < this_block implies #[trigger] pv.1[q]
                            == mixer.buf@[q] + srest.1[q] by {
                            assert(-VOICE_PEAK <= rr.1[q] <= VOICE_PEAK);
                            assert(-VOICE_PEAK * w0.drop_last().len() <= srest.1[q] <= VOICE_PEAK
                                * w0.drop_last().len());
                            assert(-0x8000_0000 <= rr.1[q] + srest.1[q] <= 0x8000_0000)
                                by (nonlinear_arith)
                                requires
                                    -VOICE_PEAK <= rr.1[q] <= VOICE_PEAK,
                                    -VOICE_PEAK * w0.drop_last().len() <= srest.1[q] <= VOICE_PEAK
                                        * w0.drop_last().len(),
                                    w0.drop_last().len() < 64,
                            ;
                            assert(mixer.buf@[q] == buf0[q] + rr.1[q]);
                        }
                    }
                    if !v.is_finished() {
                        proof {
                            assert(voice_ok(v, rate, block_end as int, sil));
                            assert(pv.0 =~= (kept@ + seq![rr.0]) + spec_process_voices(
                                voices@,
                                block_start as int,
                                block_end as int,
                            ).0);
                        }
                        kept.push(v);
                        proof {
                            assert(pv.0 =~= kept@ + spec_process_voices(
                                voices@,
                                block_start as int,
                                block_end as int,
                            ).0);
                        }
                    } else {
                        proof {
                            assert(spec_process_voices(
                                w0,
                                block_start as int,
                                block_end as int,
                            ).0 =~= spec_process_voices(
                                voices@,
                                block_start as int,
                                block_end as int,
                            ).0);
                        }
                    }
                } else {
                    proof {
                        assert(spec_process_voices(w0, block_start as int, block_end as int)
                            == srest);
                    }
                }
            }
            proof {
                assert(voices@ =~= Seq::<Voice>::empty());
                assert(spec_process_voices(voices@, block_start as int, block_end as int).0
                    =~= Seq::<Voice>::empty());
                assert(pv.0 =~= kept@);
                assert(mixer.buf@ =~= pv.1);
            }
            voices = kept;

            // Copy the block into the output.
            let mixed = mixer.output();
            let mut j: usize = 0;
            proof {
                assert(out@ =~= out0 + mixer.buf@.subrange(0, 0));
            }
            while j < this_block
                invariant
                    out@ == out0 + mixer.buf@.subrange(0, j as int),
                    j <= this_block,
                    out@.len() == block_start + j,
                    mixed@.len() == this_block,
                    mixed@ == mixer.buf@,
                    forall|q: int|
                        0 <= q < this_block ==> -VOICE_PEAK * (n0 as int) <= #[trigger] mixer.buf@[q]
                            <= VOICE_PEAK * (n0 as int),
                    forall|q: int|
                        0 <= q < this_block && sil <= block_start + q ==> #[trigger] mixer.buf@[q]
                            == 0,
                    forall|i: int| 0 <= i < out@.len() ==> -MAX_AMP <= #[trigger] out@[i] <= MAX_AMP,
                    spec_sched.len() == 0 ==> forall|i: int|
                        0 <= i < out@.len() ==> #[trigger] out@[i] == 0,
                    spec_sched.len() <= 8 ==> forall|i: int|
                        0 <= i < out@.len() ==> -FP_ONE <= #[trigger] out@[i] <= FP_ONE,
                    forall|i: int| sil <= i < out@.len() ==> #[trigger] out@[i] == 0,
                decreases this_block - j,
            {
                let s = mixed[j];
                proof {
                    assert(-VOICE_PEAK * (n0 as int) >= -MAX_AMP) by (nonlinear_arith)
                        requires
                            n0 <= 64,
                    ;
                    assert(VOICE_PEAK * (n0 as int) <= MAX_AMP) by (nonlinear_arith)
                        requires
                            n0 <= 64,
                    ;
                    if spec_sched.len() == 0 {
                        assert(n0 == 0);
                        assert(VOICE_PEAK * 0int == 0) by (nonlinear_arith);
                    }
                    if spec_sched.len() <= 8 {
                        assert(n0 <= 8);
                        assert(VOICE_PEAK * (n0 as int) <= FP_ONE) by (nonlinear_arith)
                            requires
                                n0 <= 8,
                        ;
                        assert(-VOICE_PEAK * (n0 as int) >= -FP_ONE) by (nonlinear_arith)
                            requires
                                n0 <= 8,
                        ;
                    }
                }
                out.push(s);
                proof {
                    assert(out@ =~= out0 + mixer.buf@.subrange(0, j as int + 1));
                }
                j = j + 1;
            }
            proof {
                assert(mixer.buf@.subrange(0, this_block as int) =~= pv.1);
                assert(out@ =~= out0 + pv.1);
                // one unfolding of the block recursion
                assert(spec_render_blocks(
                    sched@,
                    na0,
                    va0,
                    block_start as int,
                    total as int,
                    rate,
                ) == pv.1 + spec_render_blocks(
                    sched@,
                    next as int,
                    voices@,
                    block_end as int,
                    total as int,
                    rate,
                ));
                assert(out0 + (pv.1 + spec_render_blocks(
                    sched@,
                    next as int,
                    voices@,
                    block_end as int,
                    total as int,
                    rate,
                )) =~= out@ + spec_render_blocks(
                    sched@,
                    next as int,
                    voices@,
                    block_end as int,
                    total as int,
                    rate,
                ));
            }
        }
        proof {
            assert(full =~= out@);
        }
        out
    }
}

/// A Q15 sample clamped to the i16 range: full scale saturates at the
/// i16 maximum.
pub open spec fn spec_clamp_i16(s: i64) -> i16 {
    if s > 32767 {
        32767i16
    } else if s < -32768 {
        (-32768) as i16
    } else {
        s as i16
    }
}

/// Interleave a mono Q15 buffer into stereo i16 PCM: each mono sample is
/// clamped to the i16 range and written twice (left, right) — the PCM
/// derivation of the end-mode policy, pinned sample by sample.
#[verifier::loop_isolation(false)]
pub fn pcm_from_mono(mono: &Vec<i64>) -> (out: Vec<i16>)
    ensures
        out@.len() == 2 * mono@.len(),
        forall|k: int|
            0 <= k < mono@.len() ==> #[trigger] out@[2 * k] == spec_clamp_i16(mono@[k])
                && out@[2 * k + 1] == spec_clamp_i16(mono@[k]),
{
    let n = mono.len();
    let mut out: Vec<i16> = Vec::new();
    let mut i: usize = 0;
    while i < n
        invariant
            i <= n,
            out@.len() == 2 * i,
            forall|k: int|
                0 <= k < i ==> #[trigger] out@[2 * k] == spec_clamp_i16(mono@[k]) && out@[2 * k
                    + 1] == spec_clamp_i16(mono@[k]),
        decreases n - i,
    {
        let s = mono[i];
        let q: i16 = if s > 32767 {
            32767
        } else if s < -32768 {
            -32768
        } else {
            s as i16
        };
        let ghost pre = out@;
        out.push(q);
        out.push(q);
        proof {
            assert forall|k: int| 0 <= k < i + 1 implies #[trigger] out@[2 * k] == spec_clamp_i16(
                mono@[k],
            ) && out@[2 * k + 1] == spec_clamp_i16(mono@[k]) by {
                if k < i {
                    assert(out@[2 * k] == pre[2 * k]);
                    assert(out@[2 * k + 1] == pre[2 * k + 1]);
                    assert(pre[2 * k] == spec_clamp_i16(mono@[k]));
                } else {
                    assert(out@[2 * k] == q);
                    assert(out@[2 * k + 1] == q);
                }
            }
        }
        i = i + 1;
    }
    out
}

impl AudioEngine {
    /// Render to interleaved stereo i16 PCM: exactly `pcm_from_mono` of a
    /// `render` of the same event list, so each pair of channels is the
    /// clamped mono sample of `spec_render_output`.
    #[verifier::loop_isolation(false)]
    pub fn render_pcm_i16(&self, event_list: &EventList) -> (out: Vec<i16>)
        requires
            self.wf(),
            spec_event_list_wf(event_list@),
        ensures
            out@.len() == 2 * spec_render_len(event_list@, self.sample_rate, self.bpm),
            forall|k: int|
                0 <= k < spec_render_output(event_list@, self.sample_rate, self.bpm).len()
                    ==> #[trigger] out@[2 * k] == spec_clamp_i16(
                    spec_render_output(event_list@, self.sample_rate, self.bpm)[k],
                ) && out@[2 * k + 1] == spec_clamp_i16(
                    spec_render_output(event_list@, self.sample_rate, self.bpm)[k],
                ),
            forall|j: int|
                0 <= j < out@.len() && j % 2 == 0 ==> #[trigger] out@[j] == out@[j + 1],
            spec_scheduled(
                event_list@.events,
                spec_bpm(event_list@.events, self.bpm),
                self.sample_rate,
            ).len() == 0 ==> forall|j: int| 0 <= j < out@.len() ==> #[trigger] out@[j] == 0,
            forall|j: int|
                2 * spec_silence_start(event_list@, self.sample_rate, self.bpm) <= j < out@.len()
                    ==> #[trigger] out@[j] == 0,
    {
        let mono = self.render(event_list);
        let ghost sil = spec_silence_start(event_list@, self.sample_rate, self.bpm);
        let ghost nsched = spec_scheduled(
            event_list@.events,
            spec_bpm(event_list@.events, self.bpm),
            self.sample_rate,
        ).len();
        let out = pcm_from_mono(&mono);
        proof {
            assert forall|j: int| 0 <= j < out@.len() && j % 2 == 0 implies #[trigger] out@[j]
                == out@[j + 1] by {
                let k = j / 2;
                vstd::arithmetic::div_mod::lemma_fundamental_div_mod(j, 2);
                assert(j == 2 * k);
                assert(out@[2 * k] == spec_clamp_i16(mono@[k]));
            }
            if nsched == 0 {
                assert forall|j: int| 0 <= j < out@.len() implies #[trigger] out@[j] == 0 by {
                    let k = j / 2;
                    vstd::arithmetic::div_mod::lemma_fundamental_div_mod(j, 2);
                    vstd::arithmetic::div_mod::lemma_mod_bound(j, 2);
                    assert(j == 2 * k || j == 2 * k + 1);
                    assert(out@[2 * k] == spec_clamp_i16(mono@[k]));
                    assert(mono@[k] == 0);
                }
            }
            assert forall|j: int| 2 * sil <= j < out@.len() implies #[trigger] out@[j] == 0 by {
                let k = j / 2;
                vstd::arithmetic::div_mod::lemma_fundamental_div_mod(j, 2);
                vstd::arithmetic::div_mod::lemma_mod_bound(j, 2);
                assert(j == 2 * k || j == 2 * k + 1);
                assert(sil <= k);
                assert(out@[2 * k] == spec_clamp_i16(mono@[k]));
                assert(mono@[k] == 0);
            }
        }
        out
    }
}

/// With at least one scheduled note/// With at least one scheduled note, and a cursor that does not already
/// reach past the last release plus the full tail, `Tail` mode renders
/// strictly more samples than `Gate` mode for the same events and total
/// length. (With a long enough trailing rest the cursor decides both
/// lengths and they are equal.)
pub proof fn lemma_tail_longer_than_gate(el_gate: EventListModel, el_tail: EventListModel, rate: u32, bpm0: Rat)
    requires
        el_gate.events == el_tail.events,
        el_gate.total_beats == el_tail.total_beats,
        el_gate.end_mode == EndMode::Gate,
        el_tail.end_mode == EndMode::Tail,
        rate >= 40,
        spec_scheduled(el_gate.events, spec_bpm(el_gate.events, bpm0), rate).len() > 0,
        spec_samples_capped(el_gate.total_beats, spec_bpm(el_gate.events, bpm0), rate)
            < spec_max_end(
            spec_scheduled(el_gate.events, spec_bpm(el_gate.events, bpm0), rate),
            spec_end_mode_extra(EndMode::Tail, rate),
        ),
        spec_max_end(
            spec_scheduled(el_gate.events, spec_bpm(el_gate.events, bpm0), rate),
            spec_end_mode_extra(EndMode::Tail, rate),
        ) < usize::MAX,
    ensures
        spec_render_len(el_tail, rate, bpm0) > spec_render_len(el_gate, rate, bpm0),
{
    let bpm = spec_bpm(el_gate.events, bpm0);
    let sched = spec_scheduled(el_gate.events, bpm, rate);
    let extra = spec_end_mode_extra(EndMode::Tail, rate);
    lemma_max_end_strictly_grows(sched, extra);
}

/// With a positive `extra` and at least one note, the end grows strictly.
proof fn lemma_max_end_strictly_grows(sched: Seq<ScheduledNote>, extra: int)
    requires
        sched.len() > 0,
        extra >= 1,
    ensures
        spec_max_end(sched, extra) > spec_max_end(sched, 0)
            || spec_max_end(sched, extra) == usize::MAX,
    decreases sched.len(),
{
    if sched.len() == 1 {
        assert(spec_max_end(sched.drop_first(), extra) == 0);
        assert(spec_max_end(sched.drop_first(), 0) == 0);
    } else {
        lemma_max_end_strictly_grows(sched.drop_first(), extra);
        lemma_max_end_bounds(sched.drop_first(), extra);
        lemma_max_end_bounds(sched.drop_first(), 0);
    }
}

/// Rendering is deterministic: `render`'s contract pins its output as
/// `spec_render_output` of the event list, the sample rate and the default
/// tempo, so two renders of equal inputs are equal, bit for bit.
pub proof fn lemma_render_deterministic(
    el: EventListModel,
    rate: u32,
    bpm0: Rat,
    out1: Seq<i64>,
    out2: Seq<i64>,
)
    requires
        out1 == spec_render_output(el, rate, bpm0),
        out2 == spec_render_output(el, rate, bpm0),
    ensures
        out1 == out2,
{
}

/// A note whose pitch the pitch parser rejects is skipped entirely:
/// removing it from the event list leaves the rendered output unchanged,
/// sample for sample.
pub proof fn lemma_unknown_pitch_is_skipped(
    el1: EventListModel,
    el2: EventListModel,
    i: int,
    rate: u32,
    bpm0: Rat,
)
    requires
        0 <= i < el1.events.len(),
        spec_sched_note(el1.events[i], spec_bpm(el1.events, bpm0), rate) is None,
        match el1.events[i].kind {
            EventKindModel::Note { .. } => true,
            _ => false,
        },
        el2.events == el1.events.remove(i),
        el2.total_beats == el1.total_beats,
        el2.end_mode == el1.end_mode,
    ensures
        spec_render_output(el2, rate, bpm0) == spec_render_output(el1, rate, bpm0),
        spec_render_len(el2, rate, bpm0) == spec_render_len(el1, rate, bpm0),
{
    lemma_bpm_fold_remove_note(el1.events, i, bpm0);
    let bpm = spec_bpm(el1.events, bpm0);
    lemma_scheduled_remove_skipped(el1.events, i, bpm, rate);
}

/// A `Note` event takes no part in tempo extraction.
proof fn lemma_bpm_fold_remove_note(s: Seq<EventModel>, i: int, cur: Rat)
    requires
        0 <= i < s.len(),
        match s[i].kind {
            EventKindModel::Note { .. } => true,
            _ => false,
        },
    ensures
        spec_bpm_fold(s.remove(i), cur) == spec_bpm_fold(s, cur),
    decreases s.len(),
{
    if i == 0 {
        assert(s.remove(0) =~= s.drop_first());
        assert(spec_bpm_step(cur, s[0]) == cur);
    } else {
        assert(s.remove(i).drop_first() =~= s.drop_first().remove(i - 1));
        assert(s.remove(i)[0] == s[0]);
        lemma_bpm_fold_remove_note(s.drop_first(), i - 1, spec_bpm_step(cur, s[0]));
    }
}

/// Removing an event that schedules no note leaves the scheduled notes
/// unchanged.
proof fn lemma_scheduled_remove_skipped(s: Seq<EventModel>, i: int, bpm: Rat, rate: u32)
    requires
        0 <= i < s.len(),
        spec_sched_note(s[i], bpm, rate) is None,
    ensures
        spec_scheduled(s.remove(i), bpm, rate) == spec_scheduled(s, bpm, rate),
    decreases s.len(),
{
    if i == 0 {
        assert(s.remove(0) =~= s.drop_first());
        assert(spec_scheduled(s, bpm, rate) =~= spec_scheduled(s.drop_first(), bpm, rate));
    } else {
        assert(s.remove(i).drop_first() =~= s.drop_first().remove(i - 1));
        assert(s.remove(i)[0] == s[0]);
        lemma_scheduled_remove_skipped(s.drop_first(), i - 1, bpm, rate);
    }
}

} // verus!
