use music_gen::instrument::{Instrument, ScheduledNote, SoundMix, FADE_MICROS};
use music_gen::synth::{
    Effect, guitar_synth, keys_synth, strings_synth, Envelope, SimpleSynth, Synth, SynthLayer, WaveMix, UNIT,
};
use music_gen::tone::Tone;

fn plain(release: u64) -> Synth {
    Synth::Simple(SimpleSynth::new(
        Envelope(10_000, 0, 1_000_000, release),
        WaveMix::new(0, 0, UNIT, 0, 0, 0),
        vec![(UNIT, UNIT)],
    ))
}

#[test]
fn two_notes_with_release_tail() {
    let notes = vec![
        Tone::new(0, 1_000_000, 60, 127),
        Tone::new(1_000_000, 1_000_000, 64, 127),
    ];
    let inst = Instrument::new(plain(300_000), notes);
    assert_eq!(inst.release_time(), 300_000);
    assert_eq!(inst.duration(), 2_300_000);
}

#[test]
fn rests_only_last_zero() {
    let inst = Instrument::new(plain(300_000), vec![Tone::new(0, 4_000_000, 0, 127)]);
    assert_eq!(inst.duration(), 0);
    assert!(inst.schedule().is_empty());
    let empty = Instrument::new(plain(300_000), vec![]);
    assert_eq!(empty.duration(), 0);
}

#[test]
fn rests_do_not_extend_duration() {
    let notes = vec![
        Tone::new(0, 500_000, 62, 100),
        Tone::new(500_000, 5_000_000, -1, 0),
        Tone::new(200_000, 100_000, 70, 90),
    ];
    let inst = Instrument::new(plain(50_000), notes);
    assert_eq!(inst.duration(), 550_000);
    assert_eq!(
        inst.schedule(),
        vec![
            ScheduledNote { start: 0, gate_end: 500_000, end: 550_000, pitch: 62, velocity: 100 },
            ScheduledNote { start: 200_000, gate_end: 300_000, end: 350_000, pitch: 70, velocity: 90 },
        ]
    );
    assert_eq!(FADE_MICROS, 10_000);
}

#[test]
fn layer_releases_with_slowest_layer() {
    let layer = Synth::Layer(SynthLayer::new(vec![(plain(100), UNIT), (plain(900), UNIT), (plain(400), UNIT)]));
    assert_eq!(layer.release_time(), 900);
    assert_eq!(Synth::Layer(SynthLayer::new(vec![])).release_time(), 0);
}

#[test]
fn preset_release_times() {
    assert_eq!(keys_synth(UNIT).release_time(), 450_000);
    assert_eq!(strings_synth(950_000).release_time(), 100_000);
    assert_eq!(guitar_synth(UNIT).release_time(), 2_000_000);
}

#[test]
fn mix_lasts_as_long_as_longest_instrument() {
    let a = || Instrument::new(plain(0), vec![Tone::new(0, 3_000_000, 60, 127)]);
    let b = || Instrument::new(plain(500_000), vec![Tone::new(1_000_000, 1_000_000, 60, 127)]);
    let c = || Instrument::new(plain(2_000_000), vec![Tone::new(2_000_000, 500_000, 64, 127)]);
    assert_eq!(SoundMix::mix(vec![a(), b(), c()]).duration(), 4_500_000);
    assert_eq!(SoundMix::mix(vec![c(), a(), b()]).duration(), 4_500_000);
    assert_eq!(SoundMix::mix(vec![b(), a()]).duration(), 3_000_000);
    assert_eq!(SoundMix::mix(vec![]).duration(), 0);
}

#[test]
fn guitar_effect_chain() {
    match guitar_synth(UNIT) {
        Synth::Master(m) => match *m.synth {
            Synth::Effect(e) => assert_eq!(
                e.effects,
                vec![
                    Effect::Moog(600 * UNIT, 300_000),
                    Effect::Compress(50_000, 0),
                    Effect::Gain(20 * UNIT),
                    Effect::Distort(20 * UNIT, 20 * UNIT),
                    Effect::Clip,
                ]
            ),
            _ => panic!("expected an effect stage"),
        },
        _ => panic!("expected a master stage"),
    }
}
