//! Pitch-name tests. Frequencies are Q16 fixed point: 65536 stands for
//! 1 Hz.

use songwalker::pitch::note_to_frequency;

fn hz(q16: u64) -> f64 {
    q16 as f64 / 65536.0
}

#[test]
fn note_to_freq_a4() {
    let f = hz(note_to_frequency("A4").unwrap());
    assert!((f - 440.0).abs() < 0.01, "A4 should be 440Hz, got {f}");
}

#[test]
fn note_to_freq_c4() {
    let f = hz(note_to_frequency("C4").unwrap());
    assert!((f - 261.63).abs() < 0.1, "C4 should be ~261.63Hz, got {f}");
}

#[test]
fn note_to_freq_accidentals() {
    let sharp = hz(note_to_frequency("F#4").unwrap());
    let flat = hz(note_to_frequency("Gb4").unwrap());
    assert!(
        (sharp - flat).abs() < 0.01,
        "F#4 and Gb4 should be the same frequency"
    );
}

#[test]
fn a4_is_exactly_440() {
    assert_eq!(note_to_frequency("A4").unwrap(), 440 * 65536);
}

#[test]
fn octaves_double_exactly() {
    for (low, high) in [("A3", "A4"), ("A4", "A5"), ("C2", "C3"), ("Gb1", "Gb2"), ("B-1", "B0")] {
        let f_low = note_to_frequency(low).unwrap();
        let f_high = note_to_frequency(high).unwrap();
        assert_eq!(f_high, 2 * f_low, "{high} should be exactly double {low}");
    }
}

#[test]
fn negative_octaves_parse() {
    let c0 = note_to_frequency("C0").unwrap();
    let cm1 = note_to_frequency("C-1").unwrap();
    assert_eq!(c0, 2 * cm1);
}

#[test]
fn bad_pitches_are_rejected() {
    assert_eq!(note_to_frequency(""), None);
    assert_eq!(note_to_frequency("H4"), None);
    assert_eq!(note_to_frequency("A"), None);
    assert_eq!(note_to_frequency("A4x"), None);
    assert_eq!(note_to_frequency("c4"), None);
    // outside the supported octave range
    assert_eq!(note_to_frequency("C99"), None);
}
