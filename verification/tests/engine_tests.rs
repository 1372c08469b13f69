//! Engine tests: event lists rendered to samples, and to stereo PCM.
//! Samples are Q15 fixed point: 32768 stands for 1.0.

use songwalker::compiler::{EndMode, Event, EventKind, EventList};
use songwalker::engine::AudioEngine;
use songwalker::rat::Rat;

fn sample(s: i64) -> f64 {
    s as f64 / 32768.0
}

fn make_simple_song() -> EventList {
    EventList {
        events: vec![
            Event {
                time: Rat { num: 0, den: 1 },
                kind: EventKind::SetProperty {
                    target: "track.beatsPerMinute".to_string(),
                    value: "120".to_string(),
                },
            },
            Event {
                time: Rat { num: 0, den: 1 },
                kind: EventKind::Note {
                    pitch: "C4".to_string(),
                    velocity: 100,
                    gate: Rat { num: 1, den: 1 },
                },
            },
            Event {
                time: Rat { num: 1, den: 1 },
                kind: EventKind::Note {
                    pitch: "E4".to_string(),
                    velocity: 80,
                    gate: Rat { num: 1, den: 1 },
                },
            },
        ],
        total_beats: Rat { num: 2, den: 1 },
        end_mode: EndMode::Gate,
    }
}

#[test]
fn render_produces_output() {
    let engine = AudioEngine::new(44100);
    let song = make_simple_song();
    let audio = engine.render(&song);

    // Gate mode: the last gate ends at beat 2.0 = 1 s = 44100 samples.
    assert_eq!(audio.len(), 44100);

    // The output is audibly non-silent.
    let max = audio.iter().fold(0.0_f64, |m, &s| m.max(sample(s).abs()));
    assert!(max > 0.01, "Rendered audio should be non-silent, max={max}");
}

#[test]
fn render_output_bounded() {
    let engine = AudioEngine::new(44100);
    let song = make_simple_song();
    let audio = engine.render(&song);

    for (i, &s) in audio.iter().enumerate() {
        assert!(
            sample(s).abs() <= 1.0,
            "Output should be bounded to [-1, 1], sample {i} = {}",
            sample(s)
        );
    }
}

#[test]
fn render_pcm_i16_stereo() {
    let engine = AudioEngine::new(44100);
    let song = make_simple_song();
    let pcm = engine.render_pcm_i16(&song);

    // Stereo: 2 channels * 44100 samples = 88200.
    assert_eq!(pcm.len(), 88200);
}

#[test]
fn empty_song_renders_silent() {
    let engine = AudioEngine::new(44100);
    let song = EventList {
        events: vec![],
        total_beats: Rat { num: 1, den: 1 },
        end_mode: EndMode::Gate,
    };
    let audio = engine.render(&song);

    // 1 beat at 120 BPM = 0.5 s = 22050 samples.
    assert_eq!(audio.len(), 22050);
    assert!(audio.iter().all(|&s| s == 0));
}

#[test]
fn end_mode_gate_vs_tail() {
    let engine = AudioEngine::new(44100);

    let note = || Event {
        time: Rat { num: 0, den: 1 },
        kind: EventKind::Note {
            pitch: "A4".to_string(),
            velocity: 100,
            gate: Rat { num: 1, den: 1 },
        },
    };
    let gate_song = EventList {
        events: vec![note()],
        total_beats: Rat { num: 1, den: 1 },
        end_mode: EndMode::Gate,
    };
    let tail_song = EventList {
        events: vec![note()],
        total_beats: Rat { num: 1, den: 1 },
        end_mode: EndMode::Tail,
    };

    let gate_audio = engine.render(&gate_song);
    let tail_audio = engine.render(&tail_song);

    // Tail mode renders longer output: release plus the effects tail.
    assert!(
        tail_audio.len() > gate_audio.len(),
        "Tail ({}) should be longer than Gate ({})",
        tail_audio.len(),
        gate_audio.len()
    );
}

#[test]
fn notes_actually_stop_after_gate() {
    let engine = AudioEngine::new(44100);
    // Short note: gate = 0.1 beats at 120 BPM = 0.05 s = 2205 samples.
    // The envelope release is another 0.05 s = 2205 samples.
    // Well past ~4410 samples the output must be silent.
    let song = EventList {
        events: vec![
            Event {
                time: Rat { num: 0, den: 1 },
                kind: EventKind::SetProperty {
                    target: "track.beatsPerMinute".to_string(),
                    value: "120".to_string(),
                },
            },
            Event {
                time: Rat { num: 0, den: 1 },
                kind: EventKind::Note {
                    pitch: "A4".to_string(),
                    velocity: 100,
                    gate: Rat { num: 1, den: 10 },
                },
            },
        ],
        total_beats: Rat { num: 2, den: 1 },
        end_mode: EndMode::Tail,
    };

    let audio = engine.render(&song);
    let check_start = 10000; // ~0.22 s in, well past gate + release
    let tail_max = audio[check_start..]
        .iter()
        .fold(0.0_f64, |m, &s| m.max(sample(s).abs()));
    assert!(
        tail_max < 0.001,
        "Audio should be silent after note gate + release, max={tail_max}"
    );
}

#[test]
fn empty_song_length_follows_formula() {
    // floor(B * 0.5 * rate) samples of silence at 120 BPM.
    let engine = AudioEngine::new(44100);
    let song = EventList {
        events: vec![],
        total_beats: Rat { num: 3, den: 1 },
        end_mode: EndMode::Gate,
    };
    let audio = engine.render(&song);
    assert_eq!(audio.len(), 66150);
    assert!(audio.iter().all(|&s| s == 0));

    // An odd beat count floors: 3.5 beats -> 77175 samples.
    let song2 = EventList {
        events: vec![],
        total_beats: Rat { num: 7, den: 2 },
        end_mode: EndMode::Gate,
    };
    assert_eq!(engine.render(&song2).len(), 77175);
}

#[test]
fn bpm_property_changes_length() {
    // At 60 BPM one beat is a full second.
    let engine = AudioEngine::new(44100);
    let song = EventList {
        events: vec![Event {
            time: Rat { num: 0, den: 1 },
            kind: EventKind::SetProperty {
                target: "track.beatsPerMinute".to_string(),
                value: "60".to_string(),
            },
        }],
        total_beats: Rat { num: 1, den: 1 },
        end_mode: EndMode::Gate,
    };
    assert_eq!(engine.render(&song).len(), 44100);

    // A non-numeric value is ignored; the default 120 BPM stands.
    let song2 = EventList {
        events: vec![Event {
            time: Rat { num: 0, den: 1 },
            kind: EventKind::SetProperty {
                target: "track.beatsPerMinute".to_string(),
                value: "fast".to_string(),
            },
        }],
        total_beats: Rat { num: 1, den: 1 },
        end_mode: EndMode::Gate,
    };
    assert_eq!(engine.render(&song2).len(), 22050);
}

#[test]
fn unknown_pitch_is_skipped() {
    let engine = AudioEngine::new(44100);
    let song = EventList {
        events: vec![Event {
            time: Rat { num: 0, den: 1 },
            kind: EventKind::Note {
                pitch: "X9".to_string(),
                velocity: 100,
                gate: Rat { num: 1, den: 1 },
            },
        }],
        total_beats: Rat { num: 1, den: 1 },
        end_mode: EndMode::Gate,
    };
    let audio = engine.render(&song);
    // The note is dropped: length from the cursor only, all silence.
    assert_eq!(audio.len(), 22050);
    assert!(audio.iter().all(|&s| s == 0));
}

#[test]
fn render_is_deterministic() {
    let engine = AudioEngine::new(44100);
    let song = make_simple_song();
    let a1 = engine.render(&song);
    let a2 = engine.render(&song);
    assert_eq!(a1, a2);
}

#[test]
fn pcm_channels_match_and_clamp() {
    let engine = AudioEngine::new(44100);
    let song = make_simple_song();
    let pcm = engine.render_pcm_i16(&song);
    let mono = engine.render(&song);
    assert_eq!(pcm.len(), 2 * mono.len());
    for k in 0..mono.len() {
        assert_eq!(pcm[2 * k], pcm[2 * k + 1]);
    }
}

#[test]
fn unknown_pitch_leaves_other_notes_unchanged() {
    // A rejected pitch is skipped entirely: the remaining notes render
    // sample for sample as they would without it.
    let engine = AudioEngine::new(44100);
    let with_bad = EventList {
        events: vec![
            Event {
                time: Rat { num: 0, den: 1 },
                kind: EventKind::Note {
                    pitch: "C4".to_string(),
                    velocity: 100,
                    gate: Rat { num: 1, den: 1 },
                },
            },
            Event {
                time: Rat { num: 1, den: 2 },
                kind: EventKind::Note {
                    pitch: "Q7".to_string(),
                    velocity: 100,
                    gate: Rat { num: 1, den: 1 },
                },
            },
        ],
        total_beats: Rat { num: 2, den: 1 },
        end_mode: EndMode::Gate,
    };
    let without = EventList {
        events: vec![Event {
            time: Rat { num: 0, den: 1 },
            kind: EventKind::Note {
                pitch: "C4".to_string(),
                velocity: 100,
                gate: Rat { num: 1, den: 1 },
            },
        }],
        total_beats: Rat { num: 2, den: 1 },
        end_mode: EndMode::Gate,
    };
    assert_eq!(engine.render(&with_bad), engine.render(&without));
}
