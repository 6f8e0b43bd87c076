use music_gen::error::ConfigError;
use music_gen::generation::{
    beat_pattern, generate_beat, generate_chords, generate_melody, generate_section, SectionSettings,
};
use music_gen::score::{Bar, Dynamic, Key, Note, Score, Section};
use music_gen::tone::Tone;
use rand::rngs::StdRng;
use rand::SeedableRng;

#[test]
fn dynamics_map_to_velocities() {
    assert_eq!(Dynamic::Piano.velocity(), 52);
    assert_eq!(Dynamic::MezzoPiano.velocity(), 77);
    assert_eq!(Dynamic::MezzoForte.velocity(), 102);
    assert_eq!(Dynamic::Forte.velocity(), 127);
}

#[test]
fn note_degree_taken_modulo_seven() {
    let n = Note::new(480, 9, 4, None);
    assert_eq!(n.pitch, 2);
}

#[test]
fn bars_convert_to_timed_tones() {
    let key = Key::new(2, true);
    let mut bar = Bar::new(4, 120, key, Dynamic::Forte);
    bar.add_note(0, 480, Note::new(480, 2, 4, Some(true)));
    bar.add_note(1, 0, Note::new(1920, 0, 3, None));
    bar.add_note(0, 960, Note::new(240, 6, 5, Some(false)));
    let mut second = Bar::new(4, 120, key, Dynamic::Piano);
    second.add_note(0, 0, Note::new(480, 0, 4, None));
    let minor = Key::new(0, false);
    let mut third = Bar::new(3, 60, minor, Dynamic::MezzoPiano);
    third.add_note(0, 480, Note::new(480, 6, 4, None));
    let score = Score::from_sections(vec![
        Section::from_bars(vec![bar, second]),
        Section::from_bars(vec![third]),
    ]);
    assert!(score.check());
    let voices = score.convert_to_playable(3);
    assert_eq!(voices.len(), 3);
    assert_eq!(
        voices[0],
        vec![
            Tone::new(500_000, 500_000, 2 + 4 + 48 + 1, 127),
            Tone::new(1_000_000, 250_000, 2 + 11 + 60 - 1, 127),
            Tone::new(2_000_000, 500_000, 2 + 48, 52),
            Tone::new(5_000_000, 1_000_000, 11 + 48, 77),
        ]
    );
    assert_eq!(voices[1], vec![Tone::new(0, 2_000_000, 2 + 36, 127)]);
    assert!(voices[2].is_empty());
}

#[test]
fn section_carries_its_clock() {
    let key = Key::new(0, true);
    let mut bar = Bar::new(2, 60, key, Dynamic::Forte);
    bar.add_note(5, 0, Note::new(480, 0, 4, None));
    let section = Section::from_bars(vec![bar.clone(), bar]);
    let mut time = 1_000;
    let tones = section.convert_to_playable(5, &mut time);
    assert_eq!(time, 4_001_000);
    assert_eq!(tones[0].start_time, 1_000);
    assert_eq!(tones[1].start_time, 2_001_000);
}

#[test]
fn rock_beat_pattern() {
    let h = Note::new(480, 0, 3, None);
    assert_eq!(
        beat_pattern(0, 2, 3),
        vec![(2, 0, h), (3, 480, h), (2, 720, h), (2, 960, h), (3, 1440, h)]
    );
    assert_eq!(beat_pattern(1, 2, 3)[1], (3, 336, h));
    assert_eq!(beat_pattern(2, 2, 3).len(), 4);
    assert_eq!(beat_pattern(7, 2, 3)[7], (3, 1680, h));
}

#[test]
fn generators_append_to_each_bar() {
    let key = Key::new(0, true);
    let mut rng = StdRng::seed_from_u64(8);
    let mut bars: Vec<Bar> = (0..3).map(|_| Bar::new(4, 100, key, Dynamic::Forte)).collect();
    generate_melody(&mut rng, 0, &mut bars);
    for bar in &bars {
        assert!(!bar.notes.is_empty());
        assert_eq!(bar.notes.len() % 2, 0);
        for pair in bar.notes.chunks(2) {
            assert_eq!(pair[0].1, pair[1].1);
            assert_eq!(pair[0].2.pitch, pair[1].2.pitch);
            assert_eq!((pair[0].2.octave, pair[1].2.octave), (5, 4));
            assert!(pair[0].1 + pair[0].2.length <= 1920);
        }
    }
    let melody_len: Vec<usize> = bars.iter().map(|b| b.notes.len()).collect();
    generate_chords(&mut rng, 0, 1, &mut bars);
    for (bar, before) in bars.iter().zip(melody_len) {
        let added = &bar.notes[before..];
        assert!(added.len() == 6 || added.len() == 7);
        let root = bar.notes[0].2.pitch;
        assert_eq!(added[0], (1, 0, Note::new(1920, root, 4, None)));
        assert_eq!(added[1], (1, 0, Note::new(1920, root + 2, 4, None)));
        assert_eq!(added[5], (1, 1440, Note::new(480, root + 4, 4, None)));
    }
    let counts: Vec<usize> = bars.iter().map(|b| b.notes.len()).collect();
    generate_beat(&mut rng, 2, 3, &mut bars);
    for (bar, before) in bars.iter().zip(counts) {
        assert_eq!(bar.notes[before..].to_vec(), beat_pattern(0, 2, 3));
    }
}

#[test]
fn chords_default_to_degree_zero_without_melody() {
    let mut rng = StdRng::seed_from_u64(1);
    let mut bars = vec![Bar::new(3, 90, Key::new(0, false), Dynamic::Piano)];
    generate_chords(&mut rng, 0, 1, &mut bars);
    assert_eq!(bars[0].notes[0], (1, 0, Note::new(1440, 0, 4, None)));
    assert_eq!(bars[0].notes[2], (1, 0, Note::new(1440, 4, 4, None)));
}

#[test]
fn section_is_reproducible_from_seed() {
    let make = |seed: u64| {
        let mut rng = StdRng::seed_from_u64(seed);
        let settings = SectionSettings::new(4, Key::new(3, true), 110, 4, Dynamic::MezzoForte).unwrap();
        let section = generate_section(&mut rng, settings);
        assert_eq!(section.bars.len(), 4);
        Score::from_sections(vec![section]).convert_to_playable(4)
    };
    let a = make(77);
    assert_eq!(a, make(77));
    assert!(a.iter().all(|v| !v.is_empty()));
    assert_eq!(a[2].len(), 12);
    assert_eq!(a[3].len(), 8);
}

#[test]
fn section_settings_reject_empty_measures_and_zero_tempo() {
    let key = Key::new(0, true);
    assert_eq!(
        SectionSettings::new(4, key, 120, 0, Dynamic::Forte).unwrap_err(),
        ConfigError::ZeroLengthMeasure
    );
    assert_eq!(SectionSettings::new(4, key, 0, 4, Dynamic::Forte).unwrap_err(), ConfigError::ZeroTempo);
    let s = SectionSettings::new(2, key, 120, 3, Dynamic::Piano).unwrap();
    assert_eq!((s.length, s.bpm, s.beats), (2, 120, 3));
}

#[test]
fn score_check_rejects_bad_bars() {
    let key = Key::new(0, true);
    let mut bar = Bar::new(4, 0, key, Dynamic::Forte);
    bar.add_note(0, 0, Note::new(480, 0, 4, None));
    assert!(!Score::from_sections(vec![Section::from_bars(vec![bar])]).check());
    let mut long = Bar::new(4, 120, key, Dynamic::Forte);
    long.add_note(0, 200_000_000_000, Note::new(480, 0, 4, None));
    assert!(!Score::from_sections(vec![Section::from_bars(vec![long])]).check());
    assert!(Score::from_sections(vec![]).check());
}
