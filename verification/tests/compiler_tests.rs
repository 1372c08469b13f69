//! Compiler tests: source text through `parse` and `compile` to event
//! lists, checked against exact beat positions.

use songwalker::compiler::{compile, EventKind};
use songwalker::parser::parse;
use songwalker::rat::Rat;

fn beats(r: &Rat) -> f64 {
    r.num as f64 / r.den as f64
}

#[test]
fn test_compile_simple_track() {
    let program = parse(
        r#"
track riff() {
    C3 /2
    D3 /4
    E3 /4
}
riff();
"#,
    )
    .unwrap();

    let events = compile(&program).unwrap();
    assert_eq!(beats(&events.total_beats), 1.0); // 0.5 + 0.25 + 0.25

    let notes: Vec<_> = events
        .events
        .iter()
        .filter_map(|e| match &e.kind {
            EventKind::Note { pitch, .. } => Some((beats(&e.time), pitch.as_str())),
            _ => None,
        })
        .collect();

    assert_eq!(notes.len(), 3);
    assert_eq!(notes[0], (0.0, "C3"));
    assert_eq!(notes[1], (0.5, "D3"));
    assert_eq!(notes[2], (0.75, "E3"));
}

#[test]
fn test_compile_track_with_rest() {
    let program = parse(
        r#"
track t() {
    C3 /4
    4
    D3 /4
}
t();
"#,
    )
    .unwrap();

    let events = compile(&program).unwrap();
    // 0.25 (C3) + 4.0 (rest) + 0.25 (D3) = 4.5
    assert_eq!(beats(&events.total_beats), 4.5);

    let notes: Vec<_> = events
        .events
        .iter()
        .filter_map(|e| match &e.kind {
            EventKind::Note { pitch, .. } => Some((beats(&e.time), pitch.as_str())),
            _ => None,
        })
        .collect();

    assert_eq!(notes[0], (0.0, "C3"));
    assert_eq!(notes[1], (4.25, "D3"));
}

#[test]
fn test_song_length_ends_at_last_rest() {
    // The song ends where the cursor ends, not when the last note finishes.
    let program = parse(
        r#"
track t() {
    C3 /4
    D3 /4
}
t();
"#,
    )
    .unwrap();

    let events = compile(&program).unwrap();
    // Two notes, each stepping 0.25 beats.
    // The cursor ends at 0.5, even though D3 sounds for the default duration.
    assert_eq!(beats(&events.total_beats), 0.5);
}

#[test]
fn test_compile_chord() {
    let program = parse(
        r#"
track t() {
    [C3, E3, G3]@1 /2
}
t();
"#,
    )
    .unwrap();

    let events = compile(&program).unwrap();

    let notes: Vec<_> = events
        .events
        .iter()
        .filter_map(|e| match &e.kind {
            EventKind::Note { pitch, gate, .. } => {
                Some((beats(&e.time), pitch.as_str(), beats(gate)))
            }
            _ => None,
        })
        .collect();

    // All three notes fire at time 0, each audible for 1 beat.
    assert_eq!(notes.len(), 3);
    for (time, _, dur) in &notes {
        assert_eq!(*time, 0.0);
        assert_eq!(*dur, 1.0);
    }
    // Step duration /2 = 0.5 beats.
    assert_eq!(beats(&events.total_beats), 0.5);
}

#[test]
fn test_compile_velocity() {
    let program = parse(
        r#"
track t() {
    C3*80 /4
}
t();
"#,
    )
    .unwrap();

    let events = compile(&program).unwrap();
    match &events.events[0].kind {
        EventKind::Note { velocity, .. } => assert_eq!(*velocity, 80),
        other => panic!("Expected Note, got {other:?}"),
    }
}

#[test]
fn test_compile_track_call_with_step() {
    let program = parse(
        r#"
track a() {
    C3 /4
}
a() 8;
a();
"#,
    )
    .unwrap();

    let events = compile(&program).unwrap();

    let notes: Vec<_> = events
        .events
        .iter()
        .filter_map(|e| match &e.kind {
            EventKind::Note { pitch, .. } => Some((beats(&e.time), pitch.as_str())),
            _ => None,
        })
        .collect();

    // First call: C3 at 0.0, then step 8 beats.
    // Second call: C3 at 8.0.
    assert_eq!(notes[0], (0.0, "C3"));
    assert_eq!(notes[1], (8.0, "C3"));
}

#[test]
fn test_compile_default_duration_override() {
    let program = parse(
        r#"
track t() {
    track.duration = 1/4;
    C3
    D3
}
t();
"#,
    )
    .unwrap();

    let events = compile(&program).unwrap();
    // Each note uses the default step of 0.25 beats.
    assert_eq!(beats(&events.total_beats), 0.5);

    let notes: Vec<_> = events
        .events
        .iter()
        .filter_map(|e| match &e.kind {
            EventKind::Note { pitch, .. } => Some((beats(&e.time), pitch.as_str())),
            _ => None,
        })
        .collect();

    assert_eq!(notes[0], (0.0, "C3"));
    assert_eq!(notes[1], (0.25, "D3"));
}

#[test]
fn compile_is_deterministic() {
    let src = r#"
track riff() {
    C3 /2
    [D3, F3]@1 /4
    4
}
riff() 8;
riff();
x = "label";
"#;
    let p1 = parse(src).unwrap();
    let p2 = parse(src).unwrap();
    let e1 = compile(&p1).unwrap();
    let e2 = compile(&p2).unwrap();
    assert_eq!(e1, e2);
}

#[test]
fn compile_unknown_track_emits_track_start() {
    let program = parse("mystery() 2;").unwrap();
    let events = compile(&program).unwrap();
    assert_eq!(events.events.len(), 1);
    match &events.events[0].kind {
        EventKind::TrackStart { track_name, .. } => assert_eq!(track_name.as_str(), "mystery"),
        other => panic!("Expected TrackStart, got {other:?}"),
    }
    assert_eq!(beats(&events.total_beats), 2.0);
}

#[test]
fn compile_velocity_is_clamped_to_midi_range() {
    let program = parse(
        r#"
track t() {
    C3*200 /4
}
t();
"#,
    )
    .unwrap();
    let events = compile(&program).unwrap();
    match &events.events[0].kind {
        EventKind::Note { velocity, .. } => assert_eq!(*velocity, 127),
        other => panic!("Expected Note, got {other:?}"),
    }
}

#[test]
fn compile_events_are_time_sorted() {
    // The second call steps back past the first call's later notes, so the
    // raw emission order is not time order; the output must be sorted.
    let program = parse(
        r#"
track a() {
    C3 /1
    D3 /1
}
a() 0;
E3x() 0;
a();
"#,
    )
    .unwrap();
    let events = compile(&program).unwrap();
    for w in events.events.windows(2) {
        let t0 = w[0].time.num as f64 / w[0].time.den as f64;
        let t1 = w[1].time.num as f64 / w[1].time.den as f64;
        assert!(t0 <= t1, "events out of order: {t0} > {t1}");
    }
}

#[test]
fn parse_rejects_bad_syntax() {
    assert!(parse("track () {").is_err());
    assert!(parse("= 3;").is_err());
}

#[test]
fn property_values_are_stringified() {
    let program = parse("tempo = 0.5;\nlabel = waltz;").unwrap();
    let events = compile(&program).unwrap();
    let props: Vec<_> = events
        .events
        .iter()
        .filter_map(|e| match &e.kind {
            EventKind::SetProperty { target, value } => {
                Some((target.as_str(), value.as_str()))
            }
            _ => None,
        })
        .collect();
    // 0.5 is the exact rational 1/2
    assert_eq!(props[0], ("tempo", "1/2"));
    assert_eq!(props[1], ("label", "waltz"));
}

#[test]
fn bpm_can_come_from_source() {
    // track.beatsPerMinute flows through as a property event and the
    // engine obeys it: at 240 BPM one beat is a quarter second.
    let program = parse(
        r#"
track.beatsPerMinute = 240;
track t() {
    C4 /1
}
t();
"#,
    )
    .unwrap();
    let events = compile(&program).unwrap();
    let engine = songwalker::engine::AudioEngine::new(44100);
    // cursor: 1 beat = 11025 samples; the default 1-beat gate ends there too
    assert_eq!(engine.render(&events).len(), 11025);
}
