//! The harmonic skeleton of a piece: tempo, key and phrases of diatonic
//! triads.

use vstd::prelude::*;

use crate::error::ConfigError;
use crate::instrumentation::{measure_ticks, measures, phrase_wf, piece_wf};
use crate::music::{Chord, Key, Note, Phrase, Piece};
use crate::rng::gen_index;
use crate::tone::MAX_TICKS;

verus! {

/// Chords in each generated phrase.
pub const PHRASE_LENGTH: usize = 8;

/// The chord's tones are the key's degrees `d`, `d + 2` and `d + 4`.
pub open spec fn triad_on(key: Key, c: Chord, d: int) -> bool {
    forall|k: int| 0 <= k < 3 ==> (#[trigger] c.0@[k]).pc() == key.degree_pc(d + 2 * k)
}

/// The chord is the diatonic triad of the key on one of its degrees.
pub open spec fn is_triad_of(key: Key, c: Chord) -> bool {
    &&& c.0@.len() == 3
    &&& exists|d: int| 0 <= d < 7 && #[trigger] triad_on(key, c, d)
}

/// Every chord of the phrase is a triad of the key.
pub open spec fn phrase_of(key: Key, ph: Phrase) -> bool {
    forall|c: int| 0 <= c < ph.harmony@.len() ==> is_triad_of(key, #[trigger] ph.harmony@[c])
}

/// A piece in 4/4 of `phrases` phrases of eight triads in one key, at a
/// tempo that averages two draws from `bpm_range`; an inverted range, or
/// one that allows a zero tempo, is rejected.
pub fn generate_structure(rng: &mut rand::rngs::StdRng, phrases: usize, bpm_range: (u16, u16)) -> (r: Result<Piece, ConfigError>)
    ensures
        bpm_range.0 > bpm_range.1 ==> r == Err::<Piece, ConfigError>(ConfigError::InvertedTempoRange),
        bpm_range.0 <= bpm_range.1 && bpm_range.0 == 0 ==> r == Err::<Piece, ConfigError>(ConfigError::ZeroTempo),
        r is Ok <==> 0 < bpm_range.0 <= bpm_range.1,
        r matches Ok(p) ==> structure_of(p, phrases, bpm_range),
{
    if bpm_range.0 > bpm_range.1 {
        return Err(ConfigError::InvertedTempoRange);
    }
    if bpm_range.0 == 0 {
        return Err(ConfigError::ZeroTempo);
    }
    Ok(piece_structure(rng, phrases, bpm_range))
}

/// What a generated piece satisfies: a tempo in the range, 4/4, the asked
/// number of phrases of eight triads of its key, and, when its length fits
/// the tick clock, well formed.
pub open spec fn structure_of(r: Piece, phrases: usize, bpm_range: (u16, u16)) -> bool {
    &&& bpm_range.0 <= r.bpm <= bpm_range.1
    &&& r.beats_per_measure == 4
    &&& r.phrases@.len() == phrases
    &&& forall|i: int|
        0 <= i < phrases ==> (#[trigger] r.phrases@[i]).harmony@.len() == PHRASE_LENGTH
            && phrase_of(r.key, r.phrases@[i])
    &&& measures(r.phrases@) == phrases * 8
    &&& phrases * 8 * 1920 + 1920 <= MAX_TICKS ==> piece_wf(r)
}

fn piece_structure(rng: &mut rand::rngs::StdRng, phrases: usize, bpm_range: (u16, u16)) -> (r: Piece)
    requires
        0 < bpm_range.0 <= bpm_range.1,
    ensures
        structure_of(r, phrases, bpm_range),
{
    let (lo, hi) = bpm_range;
    let span: usize = (hi - lo) as usize + 1;
    let a: u32 = lo as u32 + gen_index(rng, span) as u32;
    let b: u32 = lo as u32 + gen_index(rng, span) as u32;
    let bpm: u16 = ((a + b) / 2) as u16;
    let beats_per_measure: u16 = 4;
    let major = gen_index(rng, 2) == 1;
    let tonic = Note::from_midi(gen_index(rng, 12) as u8);
    let key = Key(major, tonic);
    let mut v: Vec<Phrase> = Vec::new();
    let mut i: usize = 0;
    while i < phrases
        invariant
            i <= phrases,
            v@.len() == i,
            measures(v@) == i * 8,
            forall|j: int|
                0 <= j < i ==> (#[trigger] v@[j]).harmony@.len() == PHRASE_LENGTH && phrase_of(key, v@[j]),
        decreases phrases - i,
    {
        let ph = generate_phrase(key, rng);
        let ghost before = v@;
        v.push(ph);
        assert(v@.drop_last() =~= before);
        i = i + 1;
    }
    let r = Piece { bpm, beats_per_measure, key, phrases: v };
    proof {
        if phrases * 8 * 1920 + 1920 <= MAX_TICKS {
            assert forall|j: int| 0 <= j < r.phrases@.len() implies phrase_wf(#[trigger] r.phrases@[j]) by {
                let ph = r.phrases@[j];
                assert forall|c: int| 0 <= c < ph.harmony@.len() implies (#[trigger] ph.harmony@[c]).0@.len() >= 3 by {
                    assert(is_triad_of(key, ph.harmony@[c]));
                }
            }
            assert(measure_ticks(r) == 1920);
            assert(measures(r.phrases@) * measure_ticks(r) == phrases * 8 * 1920);
        }
    }
    r
}

fn generate_phrase(key: Key, rng: &mut rand::rngs::StdRng) -> (r: Phrase)
    ensures
        r.harmony@.len() == PHRASE_LENGTH,
        phrase_of(key, r),
{
    let mut harmony: Vec<Chord> = Vec::new();
    let mut i: usize = 0;
    while i < PHRASE_LENGTH
        invariant
            i <= PHRASE_LENGTH,
            harmony@.len() == i,
            forall|c: int| 0 <= c < i ==> is_triad_of(key, #[trigger] harmony@[c]),
        decreases PHRASE_LENGTH - i,
    {
        harmony.push(generate_chord(key, rng));
        i = i + 1;
    }
    Phrase { harmony }
}

fn generate_chord(key: Key, rng: &mut rand::rngs::StdRng) -> (r: Chord)
    ensures
        is_triad_of(key, r),
{
    let d = gen_index(rng, 7) as u8;
    let r = key.build_chord(d);
    assert(triad_on(key, r, d as int));
    r
}

} // verus!
