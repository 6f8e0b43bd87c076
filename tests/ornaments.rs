use music_gen::instrument::SingleVoiceInstrument;
use music_gen::melody::{degree_pitch, resolve_ornament, resolve_passing_tones, MAX_DEGREE};
use music_gen::music::{Key, Note};
use music_gen::synth::{Envelope, SimpleSynth, Synth, WaveMix, UNIT};
use music_gen::tone::Tone;
use rand::rngs::StdRng;
use rand::SeedableRng;

#[test]
fn degrees_to_pitches() {
    let c = Key(true, Note::C);
    assert_eq!(degree_pitch(&c, 35), 60);
    assert_eq!(degree_pitch(&c, 37), 64);
    assert_eq!(degree_pitch(&c, 41), 71);
    assert_eq!(degree_pitch(&c, 42), 72);
    let a = Key(false, Note::A);
    assert_eq!(degree_pitch(&a, 37), 60 + 9 + 3);
    assert_eq!(degree_pitch(&a, MAX_DEGREE), 108 + 9 + 10);
}

#[test]
fn ornament_without_neighbours_is_a_chord_tone() {
    let mut rng = StdRng::seed_from_u64(4);
    let chord = vec![35, 37, 39];
    for _ in 0..50 {
        assert!(chord.contains(&resolve_ornament(&mut rng, None, None, &chord)));
    }
}

#[test]
fn ornament_steps_from_single_neighbour() {
    let mut rng = StdRng::seed_from_u64(4);
    let chord = vec![35];
    for _ in 0..50 {
        let r = resolve_ornament(&mut rng, Some(40), None, &chord);
        assert!(r == 39 || r == 41);
        let r = resolve_ornament(&mut rng, None, Some(20), &chord);
        assert!(r == 19 || r == 21);
        assert_eq!(resolve_ornament(&mut rng, Some(0), None, &chord), 1);
        assert_eq!(resolve_ornament(&mut rng, None, Some(MAX_DEGREE), &chord), MAX_DEGREE - 1);
    }
}

#[test]
fn ornament_between_distant_neighbours() {
    let mut rng = StdRng::seed_from_u64(4);
    let chord = vec![35];
    for _ in 0..50 {
        let r = resolve_ornament(&mut rng, Some(30), Some(34), &chord);
        assert!((31..=33).contains(&r));
        let r = resolve_ornament(&mut rng, Some(50), Some(48), &chord);
        assert_eq!(r, 49);
        let r = resolve_ornament(&mut rng, Some(30), Some(31), &chord);
        assert!([29, 31, 30, 32].contains(&r));
        let r = resolve_ornament(&mut rng, Some(30), Some(30), &chord);
        assert!(r == 29 || r == 31);
    }
}

#[test]
fn passing_tones_stay_in_scale() {
    let mut rng = StdRng::seed_from_u64(12);
    let key = Key(true, Note::Eb);
    let classes: Vec<u8> = key.scale().iter().map(|n| n.midi() % 12).collect();
    let slots = vec![None, Some(35), None, None, Some(40), None, Some(36), None];
    for _ in 0..30 {
        let pitches = resolve_passing_tones(&mut rng, &key, &slots, &vec![35, 37, 39]);
        assert_eq!(pitches.len(), slots.len());
        assert_eq!(pitches[1], degree_pitch(&key, 35));
        assert_eq!(pitches[4], degree_pitch(&key, 40));
        assert_eq!(pitches[6], degree_pitch(&key, 36));
        for p in &pitches {
            assert!(classes.contains(&(p % 12)));
        }
        // the slot between 40 and 36 lies strictly between them
        assert!(pitches[5] > degree_pitch(&key, 36) && pitches[5] < degree_pitch(&key, 40));
    }
}

fn voice() -> SingleVoiceInstrument {
    let synth = Synth::Simple(SimpleSynth::new(
        Envelope(0, 0, 1_000_000, 200_000),
        WaveMix::new(0, UNIT, 0, 0, 0, 0),
        vec![(UNIT, UNIT)],
    ));
    SingleVoiceInstrument::new(
        synth,
        vec![
            Tone::new(0, 2_000_000, 60, 127),
            Tone::new(1_000_000, 500_000, 64, 127),
            Tone::new(1_000_000, 800_000, 65, 127),
            Tone::new(3_000_000, 100_000, 0, 127),
        ],
    )
}

#[test]
fn single_voice_follows_latest_sounding_note() {
    let v = voice();
    assert_eq!(SingleVoiceInstrument::get_pitch_by_time(&v.notes, 500_000), 60);
    assert_eq!(SingleVoiceInstrument::get_pitch_by_time(&v.notes, 1_200_000), 64);
    assert_eq!(SingleVoiceInstrument::get_pitch_by_time(&v.notes, 1_600_000), 65);
    assert_eq!(SingleVoiceInstrument::get_pitch_by_time(&v.notes, 1_900_000), 60);
    assert_eq!(SingleVoiceInstrument::get_pitch_by_time(&v.notes, 2_500_000), 0);
}

#[test]
fn single_voice_duration_skips_rests() {
    let v = voice();
    assert_eq!(v.release_time(), 200_000);
    assert_eq!(v.duration(), 2_200_000);
}

#[test]
fn first_sounding_note_in_list_order() {
    let notes = vec![Tone::new(0, 10, 60, 127), Tone::new(5, 10, 64, 127)];
    assert_eq!(SingleVoiceInstrument::get_pitch_by_time(&notes, 6), 60);
    assert_eq!(SingleVoiceInstrument::get_pitch_by_time(&notes, 12), 64);
    assert_eq!(SingleVoiceInstrument::get_pitch_by_time(&notes, 15), 0);
}

#[test]
fn single_voice_keeps_latest_onset_first() {
    let v = voice();
    let starts: Vec<u64> = v.notes.iter().map(|t| t.start_time).collect();
    assert_eq!(starts, vec![3_000_000, 1_000_000, 1_000_000, 0]);
    assert_eq!(v.notes[1].pitch, 64);
    let sorted = SingleVoiceInstrument::new(
        Synth::Simple(SimpleSynth::new(Envelope(0, 0, 0, 0), WaveMix::new(0, 0, 0, 0, 0, 0), vec![])),
        vec![Tone::new(0, 10, 60, 127), Tone::new(5, 10, 64, 127)],
    );
    assert_eq!(SingleVoiceInstrument::get_pitch_by_time(&sorted.notes, 6), 64);
}
