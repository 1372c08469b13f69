//! End-to-end tests: source text through the parser, the compiler and the
//! engine.

use songwalker::compiler::{compile, EndMode};
use songwalker::engine::AudioEngine;
use songwalker::parser::parse;
use songwalker::rat::Rat;

#[test]
fn source_to_samples() {
    let program = parse(
        r#"
track t() {
    C4 /1
    E4 /1
}
t();
"#,
    )
    .unwrap();
    let events = compile(&program).unwrap();
    // Two beats at the default 120 BPM, gate mode: the default gate of the
    // last note (1 beat from beat 1) ends exactly at the cursor.
    let engine = AudioEngine::new(44100);
    let audio = engine.render(&events);
    assert_eq!(audio.len(), 44100);
    let max = audio.iter().fold(0i64, |m, &s| m.max(s.abs()));
    assert!(max > 0);
}

#[test]
fn end_mode_assignment_selects_tail() {
    let src_gate = r#"
track t() {
    A4 /1
}
t();
"#;
    let src_tail = r#"
track.endMode = Tail;
track t() {
    A4 /1
}
t();
"#;
    let gate = compile(&parse(src_gate).unwrap()).unwrap();
    let tail = compile(&parse(src_tail).unwrap()).unwrap();
    assert_eq!(gate.end_mode, EndMode::Gate);
    assert_eq!(tail.end_mode, EndMode::Tail);
    let engine = AudioEngine::new(44100);
    assert!(engine.render(&tail).len() > engine.render(&gate).len());
}

#[test]
fn rat_arithmetic_is_exact_and_reduced() {
    let half = Rat { num: 1, den: 2 };
    let quarter = Rat { num: 1, den: 4 };
    let s1 = half.add_checked(&quarter).unwrap();
    assert_eq!(s1, Rat { num: 3, den: 4 });
    let s2 = s1.add_checked(&quarter).unwrap();
    assert_eq!(s2, Rat { num: 1, den: 1 });
    assert!(quarter.le_value(&half));
    assert!(!half.le_value(&quarter));
    let p = half.mul_checked(&Rat { num: 2, den: 3 }).unwrap();
    assert_eq!(p, Rat { num: 1, den: 3 });
}

#[test]
fn recursive_track_calls_are_a_compile_error() {
    let program = parse(
        r#"
track a() {
    a();
}
a();
"#,
    )
    .unwrap();
    assert!(compile(&program).is_err());
}

#[test]
fn zero_denominator_duration_is_a_compile_error() {
    let program = parse(
        r#"
track t() {
    C4 /0
}
t();
"#,
    )
    .unwrap();
    assert!(compile(&program).is_err());
}
