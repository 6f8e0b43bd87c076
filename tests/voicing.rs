use music_gen::error::ConfigError;
use music_gen::instrumentation::{check_piece, check_register, closest_option, generate_line, lead_voice, Voicing};
use music_gen::music::{Chord, Phrase, Piece};
use music_gen::melody::gen_melody;
use music_gen::music::{Key, Note};
use music_gen::structure::generate_structure;
use rand::rngs::StdRng;
use rand::SeedableRng;

#[test]
fn nearest_candidate_that_moves() {
    assert_eq!(closest_option(60, &vec![60, 64, 62, 58]), 62);
    assert_eq!(closest_option(60, &vec![67, 55, 64]), 64);
    assert_eq!(closest_option(60, &vec![60, 72]), 72);
}

#[test]
fn repeat_only_when_nothing_else() {
    assert_eq!(closest_option(60, &vec![60, 60, 60]), 60);
    assert_eq!(closest_option(0, &vec![255, 0]), 255);
}

#[test]
fn ties_go_to_the_earlier_candidate() {
    assert_eq!(closest_option(60, &vec![58, 62]), 58);
    assert_eq!(closest_option(60, &vec![62, 58]), 62);
}

#[test]
fn structure_is_triads_of_one_key() {
    let mut rng = StdRng::seed_from_u64(11);
    let piece = generate_structure(&mut rng, 3, (90, 130)).unwrap();
    assert!((90..=130).contains(&piece.bpm));
    assert_eq!(piece.beats_per_measure, 4);
    assert_eq!(piece.phrases.len(), 3);
    let scale = piece.key.scale();
    for ph in &piece.phrases {
        assert_eq!(ph.harmony.len(), 8);
        for c in &ph.harmony {
            assert_eq!(c.0.len(), 3);
            let d = scale.iter().position(|n| *n == c.0[0]).unwrap();
            assert_eq!(c.0[1], scale[(d + 2) % 7]);
            assert_eq!(c.0[2], scale[(d + 4) % 7]);
        }
    }
}

#[test]
fn melody_line_uses_chord_tones_in_register() {
    let mut rng = StdRng::seed_from_u64(5);
    let piece = generate_structure(&mut rng, 2, (100, 100)).unwrap();
    let tones = generate_line(&mut rng, &piece, Voicing::Melody((60, 84))).unwrap();
    assert!(!tones.is_empty());
    let classes: Vec<i32> = piece
        .phrases
        .iter()
        .flat_map(|p| p.harmony.iter())
        .flat_map(|c| c.0.iter().map(|n| n.midi() as i32 % 12))
        .collect();
    for t in &tones {
        assert!((60..=84).contains(&t.pitch));
        assert!(classes.contains(&(t.pitch % 12)));
        assert_eq!(t.velocity, 127);
    }
    // 16 measures of 4 beats at 100 bpm: the last cell starts before 38.4 s
    assert!(tones.iter().all(|t| t.start_time < 38_400_000));
    assert_eq!(tones[0].start_time, 0);
}

#[test]
fn chord_line_has_three_tones_per_measure() {
    let mut rng = StdRng::seed_from_u64(6);
    let piece = generate_structure(&mut rng, 1, (120, 120)).unwrap();
    let tones = generate_line(&mut rng, &piece, Voicing::Chords((48, 72))).unwrap();
    assert_eq!(tones.len(), 24);
    for (i, t) in tones.iter().enumerate() {
        let measure = (i / 3) as u64;
        assert_eq!(t.start_time, measure * 2_000_000);
        assert_eq!(t.duration, 2_000_000);
        let chord = &piece.phrases[0].harmony[i / 3];
        assert_eq!(t.pitch % 12, chord.0[i % 3].midi() as i32 % 12);
        assert!((48..=72).contains(&t.pitch));
    }
}

#[test]
fn scale_walk_stays_in_key() {
    let mut rng = StdRng::seed_from_u64(9);
    let piece = generate_structure(&mut rng, 2, (90, 130)).unwrap();
    let tones = gen_melody(&mut rng, &piece, (55, 79)).unwrap();
    let classes: Vec<i32> = piece.key.scale().iter().map(|n| n.midi() as i32 % 12).collect();
    assert!(!tones.is_empty());
    for t in &tones {
        assert!(classes.contains(&(t.pitch % 12)));
        assert!((55..=79).contains(&t.pitch));
    }
}

#[test]
fn scale_walk_in_a_fixed_key() {
    let mut rng = StdRng::seed_from_u64(2);
    let mut piece = generate_structure(&mut rng, 1, (120, 120)).unwrap();
    piece.key = Key(true, Note::F);
    let tones = gen_melody(&mut rng, &piece, (60, 80)).unwrap();
    for t in &tones {
        assert!([5, 7, 9, 10, 0, 2, 4].contains(&(t.pitch % 12)));
    }
}

#[test]
fn same_seed_same_events() {
    let run = |seed: u64| {
        let mut rng = StdRng::seed_from_u64(seed);
        let piece = generate_structure(&mut rng, 2, (90, 130)).unwrap();
        let mut tones = generate_line(&mut rng, &piece, Voicing::Melody((60, 84))).unwrap();
        tones.extend(generate_line(&mut rng, &piece, Voicing::Chords((48, 72))).unwrap());
        tones.extend(gen_melody(&mut rng, &piece, (55, 79)).unwrap());
        tones
    };
    assert_eq!(run(1234), run(1234));
    assert_ne!(run(1234), run(4321));
}

#[test]
fn bad_settings_are_rejected() {
    let mut rng = StdRng::seed_from_u64(3);
    assert_eq!(generate_structure(&mut rng, 2, (130, 90)).unwrap_err(), ConfigError::InvertedTempoRange);
    assert_eq!(generate_structure(&mut rng, 2, (0, 90)).unwrap_err(), ConfigError::ZeroTempo);
    let piece = generate_structure(&mut rng, 1, (100, 100)).unwrap();
    assert_eq!(
        generate_line(&mut rng, &piece, Voicing::Melody((80, 60))).unwrap_err(),
        ConfigError::InvertedRegister
    );
    assert_eq!(gen_melody(&mut rng, &piece, (250, 255)).unwrap_err(), ConfigError::RegisterOutOfRange);
    assert_eq!(check_register((0, 5)), Err(ConfigError::RegisterOutOfRange));
    assert_eq!(check_register((40, 60)), Ok(()));
    assert_eq!(check_piece(&piece), Ok(()));
}

#[test]
fn malformed_pieces_are_rejected() {
    let triad = || Key(true, Note::C).build_chord(0);
    let piece = |bpm, beats, harmony: Vec<Chord>| Piece {
        bpm,
        beats_per_measure: beats,
        key: Key(true, Note::C),
        phrases: vec![Phrase { harmony }],
    };
    let mut rng = StdRng::seed_from_u64(3);
    assert_eq!(check_piece(&piece(0, 4, vec![triad()])), Err(ConfigError::ZeroTempo));
    assert_eq!(check_piece(&piece(90, 0, vec![triad()])), Err(ConfigError::ZeroLengthMeasure));
    let dyad = Chord(vec![Note::C, Note::G]);
    assert_eq!(check_piece(&piece(90, 4, vec![triad(), dyad.clone()])), Err(ConfigError::ChordTooSmall));
    assert_eq!(
        generate_line(&mut rng, &piece(90, 4, vec![dyad]), Voicing::Chords((48, 72))).unwrap_err(),
        ConfigError::ChordTooSmall
    );
    assert!(!ConfigError::ChordTooSmall.message().is_empty());
}

#[test]
fn lead_voice_starts_on_first_candidate_then_moves_nearest() {
    let options = vec![vec![67, 60, 64], vec![67, 72, 64, 60], vec![64, 64, 62], vec![62, 62]];
    assert_eq!(lead_voice(&options), vec![67, 64, 62, 62]);
    assert!(lead_voice(&vec![]).is_empty());
}

#[test]
fn error_messages_describe_the_problem() {
    assert_eq!(ConfigError::ZeroLengthMeasure.message(), "a measure must have at least one beat");
    assert_eq!(ConfigError::EmptyCatalog.message(), "no rhythm pattern fills that many beats");
}

#[test]
fn melody_tone_lengths_fill_each_measure() {
    let mut rng = StdRng::seed_from_u64(21);
    let piece = generate_structure(&mut rng, 1, (120, 120)).unwrap();
    let tones = gen_melody(&mut rng, &piece, (55, 79)).unwrap();
    // at 120 bpm four beats last 2 s; each measure's tones run end to end
    let mut by_measure = vec![0u64; 8];
    for t in &tones {
        assert!(t.duration > 0);
        by_measure[(t.start_time / 2_000_000) as usize] += t.duration;
    }
    assert!(by_measure.iter().all(|d| *d == 2_000_000));
}
