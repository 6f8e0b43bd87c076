use music_gen::music::{Chord, ChordType, Inversion, Key, Note};
use music_gen::scale::{Mode, Scale};
use rand::rngs::StdRng;
use rand::SeedableRng;

#[test]
fn c_major_root_position_triad() {
    let key = Key(true, Note::C);
    assert_eq!(key.chord(0, ChordType::Major, Inversion::Normal), [60, 64, 67]);
}

#[test]
fn inversions_raise_lower_members_an_octave() {
    let key = Key(true, Note::C);
    assert_eq!(key.chord(0, ChordType::Major, Inversion::First), [64, 67, 72]);
    assert_eq!(key.chord(0, ChordType::Major, Inversion::Second), [67, 72, 76]);
}

#[test]
fn chord_qualities_set_third_and_fifth() {
    let key = Key(false, Note::A);
    assert_eq!(key.chord(0, ChordType::Minor, Inversion::Normal), [69, 72, 76]);
    assert_eq!(key.chord(1, ChordType::Diminished, Inversion::Normal), [71, 74, 77]);
    assert_eq!(key.chord(2, ChordType::Augmented, Inversion::Normal), [72, 76, 80]);
    // degree is taken modulo 7
    assert_eq!(key.chord(7, ChordType::Minor, Inversion::Normal), [69, 72, 76]);
}

#[test]
fn every_chord_is_strictly_ascending() {
    let types = [ChordType::Major, ChordType::Minor, ChordType::Diminished, ChordType::Augmented];
    let invs = [Inversion::Normal, Inversion::First, Inversion::Second];
    for major in [true, false] {
        for m in 0..12u8 {
            let key = Key(major, Note::from_midi(m));
            for d in 0..14u8 {
                for t in types {
                    for i in invs {
                        let c = key.chord(d, t, i);
                        assert!(c[0] < c[1] && c[1] < c[2]);
                    }
                }
            }
        }
    }
}

#[test]
fn note_midi_round_trip() {
    assert_eq!(Note::C.midi(), 60);
    assert_eq!(Note::B.midi(), 71);
    assert_eq!(Note::from_midi(61), Note::Db);
    assert_eq!(Note::from_midi(0), Note::C);
    assert_eq!(Note::from_midi(255), Note::Eb);
    assert_eq!(Note::A.shift_by(3), Note::C);
    assert_eq!(Note::E.shift_by(12), Note::E);
    assert_eq!(Note::B.shift_by(255), Note::D);
    assert_eq!(Note::C.shift_by(200), Note::Ab);
}

#[test]
fn midi_range_moves_by_octaves_into_register() {
    assert_eq!(Note::E.midi_range(48, 72), 64);
    assert_eq!(Note::E.midi_range(70, 90), 76);
    assert_eq!(Note::C.midi_range(72, 83), 72);
    assert_eq!(Note::C.midi_range(30, 48), 48);
    assert_eq!(Note::G.midi_range(30, 45), 43);
}

#[test]
fn scale_and_build_chord() {
    let key = Key(false, Note::A);
    assert_eq!(
        key.scale(),
        vec![Note::A, Note::B, Note::C, Note::D, Note::E, Note::F, Note::G]
    );
    assert_eq!(key.offsets(), [0, 2, 3, 5, 7, 8, 10]);
    let c = Key(true, Note::C).build_chord(1);
    assert_eq!(c.0, vec![Note::D, Note::F, Note::A]);
    let c = Key(true, Note::C).build_chord(6);
    assert_eq!(c.0, vec![Note::B, Note::D, Note::F]);
    assert_eq!(Key(true, Note::D).from_index(9), Note::Gb);
}

#[test]
fn chord_tones_land_in_register() {
    let mut rng = StdRng::seed_from_u64(7);
    let chord = Key(true, Note::G).build_chord(0);
    for _ in 0..200 {
        let p = chord.rand_from_range(&mut rng, &(40, 80));
        assert!((40..=80).contains(&p));
        assert!([7, 11, 2].contains(&(p % 12)));
        let q = chord.i_from_range(&mut rng, 1, &(50, 61));
        assert_eq!(q, 59);
    }
    let single = Chord(vec![Note::C]);
    let mut seen = std::collections::BTreeSet::new();
    for _ in 0..200 {
        seen.insert(single.i_from_range(&mut rng, 0, &(36, 72)));
    }
    assert_eq!(seen.into_iter().collect::<Vec<_>>(), vec![36, 48, 60, 72]);
}

#[test]
fn scale_pitches_follow_mode() {
    assert_eq!(Mode::Major.offsets(), [0, 2, 4, 5, 7, 9, 11]);
    assert_eq!(Mode::Minor.offsets(), [0, 2, 3, 5, 7, 8, 10]);
    assert_eq!(Scale::new(62, Mode::Major).pitches(), [62, 64, 66, 67, 69, 71, 73]);
    assert_eq!(Scale::new(57, Mode::Minor).pitches(), [57, 59, 60, 62, 64, 65, 67]);
}
