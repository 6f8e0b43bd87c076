//! Synthesizer descriptions: a closed tree of operators (oscillator mix,
//! filters, vibrato, effects, layers, master stage) that a renderer turns
//! into one signal graph per note. Real-valued settings are fixed-point
//! integers in millionths (times in microseconds, frequencies in
//! micro-hertz, levels and ratios in millionths of one).

use vstd::prelude::*;

verus! {

/// One unit (1.0) in the fixed-point scale of the settings.
pub const UNIT: i64 = 1_000_000;

/// Attack, decay, sustain level and release of a four-stage envelope
/// (times in microseconds, level in millionths).
#[derive(Copy, Clone, PartialEq, Eq, Structural, Debug)]
pub struct Envelope(pub u64, pub u64, pub u64, pub u64);

impl Envelope {
    /// How long a voice keeps sounding once its note is let go.
    pub fn release_time(&self) -> (r: u64)
        ensures
            r == self.3,
    {
        self.3
    }
}

/// A setting that is constant, follows an envelope between two bounds, or
/// is mapped linearly from the note's pitch (`in` range to `out` range; the
/// bool says whether the pitch is read as a MIDI number rather than in Hz).
#[derive(Copy, Clone, Debug)]
pub enum Parameter {
    Const(i64),
    Enveloped(Envelope, i64, i64),
    KeyTracked((i64, i64), (i64, i64), bool),
}

/// The weight of each waveform in an oscillator mix.
#[derive(Copy, Clone, PartialEq, Eq, Structural, Debug)]
pub struct WaveMix {
    pub square: i64,
    pub saw: i64,
    pub sine: i64,
    pub triangle: i64,
    pub pulse: i64,
    pub noise: i64,
}

impl WaveMix {
    pub fn new(square: i64, saw: i64, sine: i64, triangle: i64, pulse: i64, noise: i64) -> (r: WaveMix)
        ensures
            r == (WaveMix { square, saw, sine, triangle, pulse, noise }),
    {
        WaveMix { square, saw, sine, triangle, pulse, noise }
    }
}

/// An oscillator mix played at several multiples of the note's frequency,
/// `(ratio, weight)` each, under an envelope.
#[derive(Clone, Debug)]
pub struct SimpleSynth {
    pub envelope: Envelope,
    pub mix: WaveMix,
    pub harmonics: Vec<(i64, i64)>,
}

impl SimpleSynth {
    pub fn new(envelope: Envelope, mix: WaveMix, harmonics: Vec<(i64, i64)>) -> (r: SimpleSynth)
        ensures
            r.envelope == envelope,
            r.mix == mix,
            r.harmonics@ == harmonics@,
    {
        SimpleSynth { envelope, mix, harmonics }
    }
}

/// A filter stage: its cutoff and its resonance (Q).
#[derive(Copy, Clone, Debug)]
pub struct Filter(pub Parameter, pub i64);

/// A synth under an optional low-pass and an optional high-pass stage.
#[derive(Debug)]
pub struct SynthFilter {
    pub lowpass: Option<Filter>,
    pub highpass: Option<Filter>,
    pub synth: Box<Synth>,
}

/// Pan, reverb send and output gain, last in a chain.
#[derive(Debug)]
pub struct SynthMaster {
    pub synth: Box<Synth>,
    pub reverb_size: i64,
    pub reverb_time: i64,
    pub reverb_mix: i64,
    pub pan: i64,
    pub volume: i64,
}

/// A synth whose input frequency is modulated by a low-frequency sine.
#[derive(Debug)]
pub struct SynthVibrato {
    pub synth: Box<Synth>,
    pub frequency: Parameter,
    pub amplitude: Parameter,
}

/// One stage of an effect chain on a synth's output.
#[derive(Copy, Clone, PartialEq, Eq, Structural, Debug)]
pub enum Effect {
    /// A resonant ladder low-pass: cutoff, resonance.
    Moog(i64, i64),
    /// A compressor: threshold level and knee width; the signal above the
    /// threshold is squashed.
    Compress(i64, i64),
    /// A gain factor.
    Gain(i64),
    /// A saturating distortion: drive and hardness.
    Distort(i64, i64),
    /// Hard clipping to the unit range.
    Clip,
}

/// A synth followed by a chain of effects.
#[derive(Debug)]
pub struct SynthEffect {
    pub synth: Box<Synth>,
    pub effects: Vec<Effect>,
}

/// Synths summed, each with its own weight.
#[derive(Debug)]
pub struct SynthLayer {
    pub layers: Vec<(Synth, i64)>,
}

/// A synthesizer description.
#[derive(Debug)]
pub enum Synth {
    Simple(SimpleSynth),
    Filtered(SynthFilter),
    Master(SynthMaster),
    Vibrato(SynthVibrato),
    Effect(SynthEffect),
    Layer(SynthLayer),
}

/// How long a note of the synth keeps sounding after its gate closes: the
/// envelope's release for an oscillator mix, the inner synth's for a
/// wrapper, the slowest layer's for a layer (zero with no layers).
pub open spec fn release_of(s: Synth) -> int
    decreases s, 0int,
{
    match s {
        Synth::Simple(x) => x.envelope.3 as int,
        Synth::Filtered(f) => release_of(*f.synth),
        Synth::Master(m) => release_of(*m.synth),
        Synth::Vibrato(v) => release_of(*v.synth),
        Synth::Effect(e) => release_of(*e.synth),
        Synth::Layer(l) => layers_release(l.layers@, l.layers@.len() as int),
    }
}

/// The largest release among the first `n` layers, zero for none.
pub open spec fn layers_release(ls: Seq<(Synth, i64)>, n: int) -> int
    decreases ls, n,
{
    if n <= 0 || n > ls.len() {
        0
    } else {
        let rest = layers_release(ls, n - 1);
        let last = release_of(ls[n - 1].0);
        if rest >= last {
            rest
        } else {
            last
        }
    }
}

impl Synth {
    /// The synth's release tail in microseconds (see [`release_of`]).
    pub fn release_time(&self) -> (r: u64)
        ensures
            r == release_of(*self),
        decreases *self, 0int,
    {
        match self {
            Synth::Simple(x) => x.envelope.release_time(),
            Synth::Filtered(f) => f.synth.release_time(),
            Synth::Master(m) => m.synth.release_time(),
            Synth::Vibrato(v) => v.synth.release_time(),
            Synth::Effect(e) => e.synth.release_time(),
            Synth::Layer(l) => l.release_time(),
        }
    }
}

impl SynthLayer {
    /// The slowest layer's release tail.
    pub fn release_time(&self) -> (r: u64)
        ensures
            r == layers_release(self.layers@, self.layers@.len() as int),
        decreases self.layers@, self.layers@.len() as int + 1,
    {
        let mut best: u64 = 0;
        let mut i: usize = 0;
        while i < self.layers.len()
            invariant
                i <= self.layers@.len(),
                best == layers_release(self.layers@, i as int),
            decreases self.layers@.len() - i,
        {
            let r = self.layers[i].0.release_time();
            if r > best {
                best = r;
            }
            i = i + 1;
        }
        best
    }
}

impl SynthFilter {
    pub fn new(synth: Box<Synth>, lowpass: Option<Filter>, highpass: Option<Filter>) -> (r: SynthFilter)
        ensures
            r.synth == synth,
            r.lowpass == lowpass,
            r.highpass == highpass,
    {
        SynthFilter { lowpass, highpass, synth }
    }
}

impl SynthMaster {
    pub fn new(
        synth: Box<Synth>,
        reverb_size: i64,
        reverb_time: i64,
        reverb_mix: i64,
        pan: i64,
        volume: i64,
    ) -> (r: SynthMaster)
        ensures
            r == (SynthMaster { synth, reverb_size, reverb_time, reverb_mix, pan, volume }),
    {
        SynthMaster { synth, reverb_size, reverb_time, reverb_mix, pan, volume }
    }
}

impl SynthVibrato {
    pub fn new(synth: Box<Synth>, frequency: Parameter, amplitude: Parameter) -> (r: SynthVibrato)
        ensures
            r == (SynthVibrato { synth, frequency, amplitude }),
    {
        SynthVibrato { synth, frequency, amplitude }
    }
}

impl SynthEffect {
    pub fn new(synth: Box<Synth>, effects: Vec<Effect>) -> (r: SynthEffect)
        ensures
            r == (SynthEffect { synth, effects }),
    {
        SynthEffect { synth, effects }
    }
}

impl SynthLayer {
    pub fn new(layers: Vec<(Synth, i64)>) -> (r: SynthLayer)
        ensures
            r == (SynthLayer { layers }),
    {
        SynthLayer { layers }
    }
}

/// The master stage's output gain, if `s` is one.
pub open spec fn master_volume(s: Synth) -> Option<i64> {
    match s {
        Synth::Master(m) => Some(m.volume),
        _ => None,
    }
}

/// The pitch-tracked low-pass and fixed 200 Hz high-pass used by the presets.
fn tracked_filters(low_min: i64, low_max: i64, q: i64) -> (r: (Option<Filter>, Option<Filter>))
    ensures
        r.0 is Some,
        r.1 is Some,
{
    let low = Filter(Parameter::KeyTracked((60 * UNIT, 72 * UNIT), (low_min, low_max), true), q);
    let high = Filter(Parameter::Const(200 * UNIT), 500_000);
    (Some(low), Some(high))
}

/// An electric-piano-like preset: a filtered sine-heavy mix layered with a
/// quiet, long-decaying body.
pub fn keys_synth(volume: i64) -> (r: Synth)
    ensures
        release_of(r) == 450_000,
        master_volume(r) == Some(volume),
{
    let synth = SimpleSynth::new(
        Envelope(20_000, 450_000, 0, 450_000),
        WaveMix::new(0, 50_000, 750_000, 200_000, 0, 0),
        vec![(UNIT, 800_000), (500_000, 100_000), (2 * UNIT, 100_000)],
    );
    let synth2 = SimpleSynth::new(
        Envelope(20_000, 2_000_000, 0, 0),
        WaveMix::new(0, 0, 500_000, 500_000, 0, 0),
        vec![(UNIT, 900_000), (500_000, 50_000), (2 * UNIT, 50_000)],
    );
    let (low_filter, high_filter) = tracked_filters(4000 * UNIT, 6000 * UNIT, 100_000);
    let filtered_synth = SynthFilter::new(Box::new(Synth::Simple(synth)), low_filter, high_filter);
    let first = Synth::Filtered(filtered_synth);
    let second = Synth::Simple(synth2);
    assert(release_of(first) == 450_000) by {
        reveal_with_fuel(release_of, 2);
    }
    assert(release_of(second) == 0);
    let layers = vec![(first, UNIT), (second, 100_000)];
    assert(layers_release(layers@, 2) == 450_000) by {
        reveal_with_fuel(layers_release, 3);
    }
    let layered_synth = SynthLayer::new(layers);
    let r = Synth::Master(
        SynthMaster::new(Box::new(Synth::Layer(layered_synth)), 10 * UNIT, 2_500_000, 0, 0, volume),
    );
    assert(release_of(r) == 450_000) by {
        reveal_with_fuel(release_of, 3);
    }
    r
}

/// A bowed-string preset: a square/saw mix, pitch-tracked filtering and a
/// vibrato that fades in over two seconds, with a full reverb send.
pub fn strings_synth(volume: i64) -> (r: Synth)
    ensures
        release_of(r) == 100_000,
        master_volume(r) == Some(volume),
{
    let synth = SimpleSynth::new(
        Envelope(300_000, UNIT as u64, 800_000, 100_000),
        WaveMix::new(700_000, 200_000, 50_000, 50_000, 0, 0),
        vec![(UNIT, 750_000), (500_000, 100_000), (2 * UNIT, 150_000)],
    );
    let (low_filter, high_filter) = tracked_filters(6000 * UNIT, 10_000 * UNIT, 100_000);
    let filtered_synth = SynthFilter::new(Box::new(Synth::Simple(synth)), low_filter, high_filter);
    let vibrato_synth = SynthVibrato::new(
        Box::new(Synth::Filtered(filtered_synth)),
        Parameter::Const(5 * UNIT),
        Parameter::Enveloped(Envelope(2_000_000, 0, 1_000_000, 0), 0, 6_000),
    );
    let r = Synth::Master(
        SynthMaster::new(Box::new(Synth::Vibrato(vibrato_synth)), 10 * UNIT, 2_500_000, UNIT, 0, volume),
    );
    assert(release_of(r) == 100_000) by {
        reveal_with_fuel(release_of, 4);
    }
    r
}

/// A plucked, overdriven guitar preset: a bright mix with noise, slow
/// vibrato, then a ladder filter, gain and clipping.
pub fn guitar_synth(volume: i64) -> (r: Synth)
    ensures
        release_of(r) == 2_000_000,
        master_volume(r) == Some(volume),
{
    let synth = SimpleSynth::new(
        Envelope(20_000, 2_000_000, 0, 2_000_000),
        WaveMix::new(310_000, 310_000, 0, 0, 310_000, 60_000),
        vec![(UNIT, UNIT)],
    );
    let (low_filter, high_filter) = tracked_filters(6000 * UNIT, 10_000 * UNIT, 300_000);
    let filtered_synth = SynthFilter::new(Box::new(Synth::Simple(synth)), low_filter, high_filter);
    let vibrato_synth = SynthVibrato::new(
        Box::new(Synth::Filtered(filtered_synth)),
        Parameter::Const(2 * UNIT),
        Parameter::Enveloped(Envelope(2_000_000, 0, 1_000_000, 0), 0, 4_000),
    );
    let effect = SynthEffect::new(
        Box::new(Synth::Vibrato(vibrato_synth)),
        vec![
            Effect::Moog(600 * UNIT, 300_000),
            Effect::Compress(50_000, 0),
            Effect::Gain(20 * UNIT),
            Effect::Distort(20 * UNIT, 20 * UNIT),
            Effect::Clip,
        ],
    );
    let r = Synth::Master(
        SynthMaster::new(Box::new(Synth::Effect(effect)), 40 * UNIT, 4_500_000, 700_000, 0, volume),
    );
    assert(release_of(r) == 2_000_000) by {
        reveal_with_fuel(release_of, 5);
    }
    r
}

} // verus!
