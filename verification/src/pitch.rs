//! Note names to frequencies.
//!
//! A pitch is spelled `<Letter>[#|b]<Octave>`: a letter `C D E F G A B`, an
//! optional accidental, and a signed octave. The MIDI number is
//! `(octave + 1) * 12 + semitone` (C = 0 ... B = 11), and the frequency is
//! `440 * 2^((midi - 69) / 12)` Hz, returned in Q16 fixed point (so `A4`
//! is exactly `440 << 16`).
//!
//! The twelve semitone ratios of one octave are a fixed table in Q16
//! anchored eight octaves below A4, and every supported frequency is a
//! left shift of a table entry: doubling across octaves is exact. MIDI
//! numbers outside `MIDI_MIN ..= MIDI_MAX` are out of the table's range
//! and yield `None`, as does any string that is not a pitch.

use crate::strutil::{digit_val, is_digit, spec_digits_fold};
use vstd::arithmetic::power2::pow2;
use vstd::prelude::*;

verus! {

/// Lowest supported MIDI number.
pub const MIDI_MIN: i64 = -27;

/// Highest supported MIDI number.
pub const MIDI_MAX: i64 = 224;

/// `440 * 2^(r/12) * 2^16 / 2^8`, rounded: the Q16 frequency of the pitch
/// `r` semitones above A4, eight octaves down.
pub open spec fn spec_base_freq(r: int) -> u64 {
    if r == 0 {
        112640
    } else if r == 1 {
        119338
    } else if r == 2 {
        126434
    } else if r == 3 {
        133952
    } else if r == 4 {
        141918
    } else if r == 5 {
        150356
    } else if r == 6 {
        159297
    } else if r == 7 {
        168769
    } else if r == 8 {
        178805
    } else if r == 9 {
        189437
    } else if r == 10 {
        200702
    } else if r == 11 {
        212636
    } else {
        0
    }
}

fn base_freq(r: u64) -> (f: u64)
    requires
        r < 12,
    ensures
        f == spec_base_freq(r as int),
{
    if r == 0 {
        112640
    } else if r == 1 {
        119338
    } else if r == 2 {
        126434
    } else if r == 3 {
        133952
    } else if r == 4 {
        141918
    } else if r == 5 {
        150356
    } else if r == 6 {
        159297
    } else if r == 7 {
        168769
    } else if r == 8 {
        178805
    } else if r == 9 {
        189437
    } else if r == 10 {
        200702
    } else {
        212636
    }
}

/// The semitone of a note letter, with C = 0.
pub open spec fn spec_letter_semitone(c: char) -> Option<int> {
    if c == 'C' {
        Some(0int)
    } else if c == 'D' {
        Some(2int)
    } else if c == 'E' {
        Some(4int)
    } else if c == 'F' {
        Some(5int)
    } else if c == 'G' {
        Some(7int)
    } else if c == 'A' {
        Some(9int)
    } else if c == 'B' {
        Some(11int)
    } else {
        None
    }
}

/// Parse a signed decimal integer that fits in `i32`: an optional sign,
/// then one or more digits.
pub open spec fn spec_parse_i32(s: Seq<char>) -> Option<int> {
    let (neg, body) = if s.len() >= 1 && s[0] == '-' {
        (true, s.drop_first())
    } else if s.len() >= 1 && s[0] == '+' {
        (false, s.drop_first())
    } else {
        (false, s)
    };
    if body.len() == 0 {
        None
    } else {
        match spec_digits_fold(body, 0) {
            Some(v) => if neg {
                if v <= 0x8000_0000 {
                    Some(-(v as int))
                } else {
                    None
                }
            } else {
                if v <= 0x7fff_ffff {
                    Some(v as int)
                } else {
                    None
                }
            },
            None => None,
        }
    }
}

/// The MIDI number a pitch string names, if it is well formed.
pub open spec fn spec_midi_of(s: Seq<char>) -> Option<int> {
    if s.len() == 0 {
        None
    } else {
        match spec_letter_semitone(s[0]) {
            Some(base) => {
                let (sem, idx) = if s.len() >= 2 && s[1] == '#' {
                    (base + 1, 2int)
                } else if s.len() >= 2 && s[1] == 'b' {
                    (base - 1, 2int)
                } else {
                    (base, 1int)
                };
                match spec_parse_i32(s.subrange(idx, s.len() as int)) {
                    Some(oct) => Some((oct + 1) * 12 + sem),
                    None => None,
                }
            },
            None => None,
        }
    }
}

/// The Q16 frequency of a MIDI number: a table entry shifted left by the
/// octave distance from the anchor, eight octaves below A4.
pub open spec fn spec_freq_of_midi(m: int) -> Option<u64> {
    if MIDI_MIN <= m <= MIDI_MAX {
        let r = (m - 69) % 12;
        let q = (m - 69 - r) / 12;
        Some((spec_base_freq(r) * pow2((q + 8) as nat)) as u64)
    } else {
        None
    }
}

/// What `note_to_frequency` returns on a given string.
pub open spec fn spec_note_to_frequency(s: Seq<char>) -> Option<u64> {
    match spec_midi_of(s) {
        Some(m) => spec_freq_of_midi(m),
        None => None,
    }
}

proof fn lemma_freq_bound(r: int, s: nat)
    requires
        0 <= r < 12,
        s <= 20,
    ensures
        spec_base_freq(r) * pow2(s) < 0x8000_0000_0000,
{
    vstd::arithmetic::power2::lemma2_to64();
    if s < 20 {
        vstd::arithmetic::power2::lemma_pow2_strictly_increases(s, 20);
    }
    assert(pow2(s) <= 0x100000);
    assert(spec_base_freq(r) <= 212636);
    assert(spec_base_freq(r) * pow2(s) <= 212636 * 0x100000) by (nonlinear_arith)
        requires
            spec_base_freq(r) <= 212636,
            pow2(s) <= 0x100000,
            0 <= spec_base_freq(r),
            0 <= pow2(s),
    ;
}

/// Parse the character range `[from, to)` of `s` as a signed integer,
/// mirroring `spec_parse_i32`.
#[verifier::loop_isolation(false)]
fn parse_i32_range(s: &str, from: usize, to: usize) -> (r: Option<i64>)
    requires
        from <= to <= s@.len(),
    ensures
        match r {
            Some(v) => spec_parse_i32(s@.subrange(from as int, to as int)) == Some(v as int)
                && -0x8000_0000 <= v <= 0x7fff_ffff,
            None => spec_parse_i32(s@.subrange(from as int, to as int)) is None,
        },
{
    let ghost sub = s@.subrange(from as int, to as int);
    if from == to {
        return None;
    }
    let c0 = s.get_char(from);
    let (neg, start) = if c0 == '-' {
        (true, from + 1)
    } else if c0 == '+' {
        (false, from + 1)
    } else {
        (false, from)
    };
    proof {
        assert(sub[0] == c0);
        if c0 == '-' || c0 == '+' {
            assert(sub.drop_first() =~= s@.subrange(start as int, to as int));
        }
    }
    let ghost body = s@.subrange(start as int, to as int);
    if start == to {
        return None;
    }
    let mut i: usize = start;
    let mut acc: u64 = 0;
    while i < to
        invariant
            start <= i <= to <= s@.len(),
            acc <= 0x8000_0000,
            spec_digits_fold(body, 0) == spec_digits_fold(
                s@.subrange(i as int, to as int),
                acc as nat,
            ),
        decreases to - i,
    {
        let ghost rest = s@.subrange(i as int, to as int);
        let c = s.get_char(i);
        let u = c as u32;
        proof {
            assert(rest[0] == c);
            assert(rest.drop_first() =~= s@.subrange(i as int + 1, to as int));
        }
        if u < 48 || u > 57 {
            return None;
        }
        let d = (u - 48) as u64;
        if acc > 0x8000_0000 / 10 {
            proof {
                assert(acc as nat * 10 + d as nat > 0x8000_0000) by (nonlinear_arith)
                    requires
                        acc as nat > 0x8000_0000nat / 10,
                        d < 10,
                ;
                if spec_digits_fold(rest.drop_first(), acc as nat * 10 + d as nat) is Some {
                    crate::strutil::lemma_digits_fold_monotone(
                        rest.drop_first(),
                        acc as nat * 10 + d as nat,
                    );
                }
            }
            return None;
        }
        acc = acc * 10 + d;
        if acc > 0x8000_0000 {
            proof {
                if spec_digits_fold(s@.subrange(i as int + 1, to as int), acc as nat) is Some {
                    crate::strutil::lemma_digits_fold_monotone(
                        s@.subrange(i as int + 1, to as int),
                        acc as nat,
                    );
                }
            }
            return None;
        }
        i = i + 1;
    }
    proof {
        assert(s@.subrange(to as int, to as int) =~= Seq::<char>::empty());
    }
    if neg {
        Some(-(acc as i64))
    } else {
        if acc <= 0x7fff_ffff {
            Some(acc as i64)
        } else {
            None
        }
    }
}

/// The frequency in Q16 fixed point of the named pitch, mirroring
/// `spec_note_to_frequency`: `None` when the string is not a pitch or its
/// MIDI number is outside the supported range.
#[verifier::loop_isolation(false)]
pub fn note_to_frequency(note: &str) -> (r: Option<u64>)
    ensures
        r == spec_note_to_frequency(note@),
{
    let n = note.unicode_len();
    if n == 0 {
        return None;
    }
    let letter = note.get_char(0);
    let base: i64 = if letter == 'C' {
        0
    } else if letter == 'D' {
        2
    } else if letter == 'E' {
        4
    } else if letter == 'F' {
        5
    } else if letter == 'G' {
        7
    } else if letter == 'A' {
        9
    } else if letter == 'B' {
        11
    } else {
        return None;
    };
    let mut sem: i64 = base;
    let mut idx: usize = 1;
    if n >= 2 {
        let acc = note.get_char(1);
        if acc == '#' {
            sem = sem + 1;
            idx = 2;
        } else if acc == 'b' {
            sem = sem - 1;
            idx = 2;
        }
    }
    let oct = match parse_i32_range(note, idx, n) {
        Some(v) => v,
        None => {
            return None;
        },
    };
    let midi: i64 = (oct + 1) * 12 + sem;
    if midi < MIDI_MIN || midi > MIDI_MAX {
        return None;
    }
    let ghost m = midi as int;
    // shift to a nonnegative offset from the anchor: x = midi - MIDI_MIN,
    // so that x == (midi - 69) + 96 and the anchor's octave distance is
    // x / 12 with remainder x % 12
    let x: u64 = (midi - MIDI_MIN) as u64;
    let r10: u64 = x % 12;
    let shift: u64 = x / 12;
    proof {
        let rs = (m - 69) % 12;
        let qs = (m - 69 - rs) / 12;
        vstd::arithmetic::div_mod::lemma_mod_bound(m - 69, 12);
        vstd::arithmetic::div_mod::lemma_fundamental_div_mod(m - 69, 12);
        // (m - 69) == 12 * ((m - 69) / 12) + rs, so qs == (m - 69) / 12
        vstd::arithmetic::div_mod::lemma_fundamental_div_mod_converse(
            m - 69 - rs,
            12,
            (m - 69) / 12,
            0,
        );
        // x == 12 * (qs + 8) + rs with 0 <= rs < 12
        assert(x == (qs + 8) * 12 + rs);
        vstd::arithmetic::div_mod::lemma_fundamental_div_mod_converse(x as int, 12, qs + 8, rs);
        assert(r10 == rs);
        assert(shift == qs + 8);
        assert(shift <= 20);
    }
    let b = base_freq(r10);
    let mut f: u64 = b;
    let mut k: u64 = 0;
    proof {
        vstd::arithmetic::power2::lemma2_to64();
        lemma_freq_bound(r10 as int, shift as nat);
    }
    while k < shift
        invariant
            k <= shift,
            shift <= 20,
            f == spec_base_freq(r10 as int) * pow2(k as nat),
        decreases shift - k,
    {
        proof {
            lemma_freq_bound(r10 as int, (k + 1) as nat);
            vstd::arithmetic::power2::lemma_pow2_unfold((k + 1) as nat);
            assert(spec_base_freq(r10 as int) * pow2((k + 1) as nat) == 2 * (spec_base_freq(
                r10 as int,
            ) * pow2(k as nat))) by (nonlinear_arith)
                requires
                    pow2((k + 1) as nat) == 2 * pow2(k as nat),
            ;
        }
        f = f * 2;
        k = k + 1;
    }
    Some(f)
}

/// `A4` names MIDI 69 and its frequency is exactly 440 Hz (Q16:
/// `440 * 65536`).
pub proof fn lemma_a4_is_440()
    ensures
        spec_note_to_frequency("A4"@) == Some(28835840u64),
        28835840 == 440 * 0x1_0000,
{
    reveal_strlit("A4");
    let s = "A4"@;
    assert(s.len() == 2 && s[0] == 'A' && s[1] == '4');
    let t = s.subrange(1, 2);
    assert(t.len() == 1 && t[0] == '4');
    assert(t.drop_first() =~= Seq::<char>::empty());
    assert(spec_digits_fold(t.drop_first(), 4) == Some(4nat));
    assert(is_digit('4') && digit_val('4') == 4);
    assert(spec_digits_fold(t, 0) == Some(4nat));
    assert(spec_parse_i32(t) == Some(4int));
    assert(spec_midi_of(s) == Some(69int));
    assert((69int - 69) % 12 == 0 && (69int - 69 - 0) / 12 == 0) by {
        vstd::arithmetic::div_mod::lemma_mod_self_0(12);
        vstd::arithmetic::div_mod::lemma_div_of0(12);
    }
    vstd::arithmetic::power2::lemma2_to64();
    assert(spec_freq_of_midi(69) == Some((112640 * pow2(8)) as u64));
    assert(112640 * pow2(8) == 28835840);
}

/// Enharmonic spellings name the same pitch: `F#4` and `Gb4` are both MIDI
/// 66 and have the same frequency.
pub proof fn lemma_enharmonic_fsharp4_gflat4()
    ensures
        spec_note_to_frequency("F#4"@) == spec_note_to_frequency("Gb4"@),
        spec_note_to_frequency("F#4"@) is Some,
{
    reveal_strlit("F#4");
    reveal_strlit("Gb4");
    let s1 = "F#4"@;
    let s2 = "Gb4"@;
    assert(s1.len() == 3 && s1[0] == 'F' && s1[1] == '#' && s1[2] == '4');
    assert(s2.len() == 3 && s2[0] == 'G' && s2[1] == 'b' && s2[2] == '4');
    let t1 = s1.subrange(2, 3);
    let t2 = s2.subrange(2, 3);
    assert(t1.len() == 1 && t1[0] == '4');
    assert(t2.len() == 1 && t2[0] == '4');
    assert(t1.drop_first() =~= Seq::<char>::empty());
    assert(t2.drop_first() =~= Seq::<char>::empty());
    assert(is_digit('4') && digit_val('4') == 4);
    assert(spec_digits_fold(t1.drop_first(), 4) == Some(4nat));
    assert(spec_digits_fold(t2.drop_first(), 4) == Some(4nat));
    assert(spec_digits_fold(t1, 0) == Some(4nat));
    assert(spec_digits_fold(t2, 0) == Some(4nat));
    assert(spec_parse_i32(t1) == Some(4int));
    assert(spec_parse_i32(t2) == Some(4int));
    assert(spec_midi_of(s1) == Some(66int));
    assert(spec_midi_of(s2) == Some(66int));
}

/// MIDI pitch is continuous across octaves: one octave up doubles the
/// frequency, exactly, throughout the supported range.
pub proof fn lemma_octave_doubling(m: int)
    requires
        spec_freq_of_midi(m) is Some,
        spec_freq_of_midi(m + 12) is Some,
    ensures
        spec_freq_of_midi(m + 12)->Some_0 == 2 * spec_freq_of_midi(m)->Some_0,
{
    let r = (m - 69) % 12;
    let r2 = (m + 12 - 69) % 12;
    vstd::arithmetic::div_mod::lemma_mod_bound(m - 69, 12);
    vstd::arithmetic::div_mod::lemma_mod_multiples_vanish(1, m - 69, 12);
    assert(r2 == r);
    vstd::arithmetic::div_mod::lemma_fundamental_div_mod(m - 69, 12);
    let q = (m - 69 - r) / 12;
    let q2 = (m + 12 - 69 - r2) / 12;
    vstd::arithmetic::div_mod::lemma_fundamental_div_mod_converse(
        m - 69 - r,
        12,
        (m - 69) / 12,
        0,
    );
    assert(q == (m - 69) / 12);
    vstd::arithmetic::div_mod::lemma_fundamental_div_mod_converse(m + 12 - 69 - r2, 12, q + 1, 0);
    assert(q2 == q + 1);
    // the octave distances from the anchor stay within the table's shifts
    assert(0 <= q + 8 && q2 + 8 <= 20) by {
        assert(12 * q == m - 69 - r);
        assert(q >= -8 && q + 1 <= 12) by (nonlinear_arith)
            requires
                12 * q == m - 69 - r,
                0 <= r < 12,
                -27 <= m,
                m + 12 <= 224,
        ;
    }
    vstd::arithmetic::power2::lemma_pow2_unfold((q2 + 8) as nat);
    lemma_freq_bound(r, (q + 8) as nat);
    lemma_freq_bound(r2, (q2 + 8) as nat);
    assert(spec_base_freq(r) * pow2((q2 + 8) as nat) == 2 * (spec_base_freq(r) * pow2(
        (q + 8) as nat,
    ))) by (nonlinear_arith)
        requires
            pow2((q2 + 8) as nat) == 2 * pow2((q + 8) as nat),
    ;
}

} // verus!
