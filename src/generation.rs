//! Generation of a section of bars: a doubled melody, chords that follow
//! the melody's first note, and a drum beat.

use vstd::prelude::*;

use crate::error::ConfigError;
use crate::rng::gen_index;
use crate::score::{bar_wf, bars_wf, Bar, Dynamic, Key, Note, Section};
use crate::tone::MAX_TICKS;

verus! {

/// The voices that a generated section fills.
pub const MELODY_VOICE: usize = 0;
pub const CHORD_VOICE: usize = 1;
pub const BASSDRUM_VOICE: usize = 2;
pub const SNARE_VOICE: usize = 3;

/// The parameters of one section.
#[derive(Copy, Clone, Debug)]
pub struct SectionSettings {
    pub length: usize,
    pub key: Key,
    pub bpm: u16,
    pub beats: u8,
    pub dynamic: Dynamic,
}

impl SectionSettings {
    /// Settings for a section; a measure of zero beats or a zero tempo is
    /// rejected.
    pub fn new(length: usize, key: Key, bpm: u16, beats: u8, dynamic: Dynamic) -> (r: Result<
        SectionSettings,
        ConfigError,
    >)
        ensures
            beats == 0 ==> r == Err::<SectionSettings, ConfigError>(ConfigError::ZeroLengthMeasure),
            beats != 0 && bpm == 0 ==> r == Err::<SectionSettings, ConfigError>(ConfigError::ZeroTempo),
            beats != 0 && bpm != 0 ==> r == Ok::<SectionSettings, ConfigError>(
                SectionSettings { length, key, bpm, beats, dynamic },
            ),
    {
        if beats == 0 {
            Err(ConfigError::ZeroLengthMeasure)
        } else if bpm == 0 {
            Err(ConfigError::ZeroTempo)
        } else {
            Ok(SectionSettings { length, key, bpm, beats, dynamic })
        }
    }
}

/// `new` is `old` with `extra` written after its notes, all else kept.
pub open spec fn appended(old: Bar, new: Bar, extra: Seq<(usize, u64, Note)>) -> bool {
    &&& new.notes@ == old.notes@ + extra
    &&& new.beats == old.beats
    &&& new.bpm == old.bpm
    &&& new.key == old.key
    &&& new.dynamic == old.dynamic
}

fn append_notes(bar: &mut Bar, extra: &Vec<(usize, u64, Note)>)
    ensures
        appended(*old(bar), *final(bar), extra@),
{
    let mut i: usize = 0;
    let ghost start = *bar;
    while i < extra.len()
        invariant
            i <= extra@.len(),
            appended(start, *bar, extra@.subrange(0, i as int)),
        decreases extra@.len() - i,
    {
        let (v, beat, note) = extra[i];
        bar.add_note(v, beat, note);
        assert(extra@.subrange(0, i as int + 1) =~= extra@.subrange(0, i as int).push(extra@[i as int]));
        i = i + 1;
    }
    assert(extra@.subrange(0, extra@.len() as int) =~= extra@);
}

/// A one-beat drum hit, in octave 3 on degree 0.
pub open spec fn hit() -> Note {
    Note { length: 480, pitch: 0, octave: 3, accidental: None }
}

/// The drum hits of one bar for a beat pattern id, as `(voice, onset)`
/// over the bass drum `bd` and snare `sn` voices: 0 is a rock beat with a
/// pushed bass drum, 1 a swung eighth-note groove, 2 a plain backbeat,
/// any other id straight eighths.
pub open spec fn beat_spec(pattern: usize, bd: usize, sn: usize) -> Seq<(usize, u64, Note)> {
    let h = hit();
    if pattern == 0 {
        seq![(bd, 0u64, h), (sn, 480u64, h), (bd, 720u64, h), (bd, 960u64, h), (sn, 1440u64, h)]
    } else if pattern == 1 {
        seq![
            (bd, 0u64, h), (sn, 336u64, h), (bd, 480u64, h), (sn, 720u64, h),
            (bd, 960u64, h), (sn, 1296u64, h), (bd, 1440u64, h), (sn, 1680u64, h),
        ]
    } else if pattern == 2 {
        seq![(bd, 0u64, h), (sn, 480u64, h), (bd, 960u64, h), (sn, 1440u64, h)]
    } else {
        seq![
            (bd, 0u64, h), (sn, 240u64, h), (bd, 480u64, h), (sn, 720u64, h),
            (bd, 960u64, h), (sn, 1200u64, h), (bd, 1440u64, h), (sn, 1680u64, h),
        ]
    }
}

/// The drum hits of one bar for a beat pattern id (see [`beat_spec`]).
pub fn beat_pattern(pattern: usize, bd: usize, sn: usize) -> (r: Vec<(usize, u64, Note)>)
    ensures
        r@ == beat_spec(pattern, bd, sn),
{
    let h = Note::new(480, 0, 3, None);
    let r = if pattern == 0 {
        vec![(bd, 0, h), (sn, 480, h), (bd, 720, h), (bd, 960, h), (sn, 1440, h)]
    } else if pattern == 1 {
        vec![
            (bd, 0, h), (sn, 336, h), (bd, 480, h), (sn, 720, h),
            (bd, 960, h), (sn, 1296, h), (bd, 1440, h), (sn, 1680, h),
        ]
    } else if pattern == 2 {
        vec![(bd, 0, h), (sn, 480, h), (bd, 960, h), (sn, 1440, h)]
    } else {
        vec![
            (bd, 0, h), (sn, 240, h), (bd, 480, h), (sn, 720, h),
            (bd, 960, h), (sn, 1200, h), (bd, 1440, h), (sn, 1680, h),
        ]
    };
    assert(r@ =~= beat_spec(pattern, bd, sn));
    r
}

/// Writes the drum beat into every bar: one pattern for the whole run,
/// drawn from the patterns in use (only the rock beat, id 0).
pub fn generate_beat(rng: &mut rand::rngs::StdRng, bassdrum_voice: usize, snare_voice: usize, bars: &mut Vec<Bar>)
    ensures
        final(bars)@.len() == old(bars)@.len(),
        forall|i: int|
            0 <= i < old(bars)@.len() ==> appended(
                #[trigger] old(bars)@[i],
                final(bars)@[i],
                beat_spec(0, bassdrum_voice, snare_voice),
            ),
{
    let pattern = gen_index(rng, 1);
    let extra = beat_pattern(pattern, bassdrum_voice, snare_voice);
    let mut src: Vec<Bar> = Vec::new();
    std::mem::swap(bars, &mut src);
    let ghost orig = src@;
    let n = src.len();
    let mut i: usize = 0;
    while i < n
        invariant
            i <= n,
            n == orig.len(),
            src@ == orig.subrange(i as int, n as int),
            bars@.len() == i,
            extra@ == beat_spec(0, bassdrum_voice, snare_voice),
            forall|k: int| 0 <= k < i ==> appended(#[trigger] orig[k], bars@[k], extra@),
        decreases n - i,
    {
        let mut bar = src.remove(0);
        append_notes(&mut bar, &extra);
        bars.push(bar);
        i = i + 1;
    }
}

/// The ten rhythm shapes of a bar's melody: note lengths in eighths on
/// the eight eighth-note onsets, zero where no note starts.
pub open spec fn shapes_spec() -> Seq<Seq<u8>> {
    seq![
        seq![6u8, 0, 0, 0, 0, 0, 2, 0],
        seq![2u8, 0, 6, 0, 0, 0, 0, 0],
        seq![6u8, 0, 0, 0, 0, 0, 0, 0],
        seq![8u8, 0, 0, 0, 0, 0, 0, 0],
        seq![4u8, 0, 0, 0, 4, 0, 0, 0],
        seq![2u8, 0, 2, 0, 4, 0, 0, 0],
        seq![4u8, 0, 0, 0, 2, 0, 0, 0],
        seq![2u8, 0, 2, 0, 2, 0, 0, 0],
        seq![4u8, 0, 0, 0, 2, 0, 2, 0],
        seq![2u8, 0, 2, 0, 2, 0, 2, 0],
    ]
}

/// The melody entries of the first `j` eighths of a shape: where a note
/// starts, a note of the shape's length on that eighth's degree from
/// `degrees`, in octave 5, then the same note in octave 4.
pub open spec fn shape_entries(shape: Seq<u8>, degrees: Seq<u8>, voice: usize, j: int) -> Seq<
    (usize, u64, Note),
>
    decreases j,
{
    if j <= 0 {
        Seq::empty()
    } else {
        let rest = shape_entries(shape, degrees, voice, j - 1);
        if shape[j - 1] == 0 {
            rest
        } else {
            let length = (shape[j - 1] * 240) as u64;
            let onset = ((j - 1) * 240) as u64;
            let high = Note { length, pitch: degrees[j - 1], octave: 5, accidental: None };
            let low = Note { length, pitch: degrees[j - 1], octave: 4, accidental: None };
            rest + seq![(voice, onset, high), (voice, onset, low)]
        }
    }
}

/// The melody written into a bar: the entries of one of the ten shapes,
/// with one scale degree (below 7) per eighth.
pub open spec fn melody_of(shape: int, degrees: Seq<u8>, voice: usize) -> Seq<(usize, u64, Note)> {
    shape_entries(shapes_spec()[shape], degrees, voice, 8)
}

/// `new` is `old` with a melody for `voice` written after its notes.
pub open spec fn melody_written(old: Bar, new: Bar, voice: usize) -> bool {
    exists|shape: int, degrees: Seq<u8>|
        0 <= shape < 10 && degrees.len() == 8 && (forall|k: int| 0 <= k < 8 ==> degrees[k] < 7) && appended(
            old,
            new,
            #[trigger] melody_of(shape, degrees, voice),
        )
}

/// A bar's melody stays within four beats, and each doubled note ends
/// no later than the next one starts.
pub proof fn lemma_melody_within_bar(shape: int, degrees: Seq<u8>, voice: usize)
    requires
        0 <= shape < 10,
        degrees.len() == 8,
    ensures
        forall|k: int|
            0 <= k < melody_of(shape, degrees, voice).len() ==> (#[trigger] melody_of(shape, degrees, voice)[k]).1
                + melody_of(shape, degrees, voice)[k].2.length <= 1920,
        forall|k: int|
            0 <= k && k + 2 < melody_of(shape, degrees, voice).len() ==> (#[trigger] melody_of(shape, degrees, voice)[k]).1
                + melody_of(shape, degrees, voice)[k].2.length <= melody_of(shape, degrees, voice)[k + 2].1,
{
    reveal_with_fuel(shape_entries, 9);
    let e = melody_of(shape, degrees, voice);
    if shape == 0 {
        assert(e.len() == 4);
    } else if shape == 1 {
        assert(e.len() == 4);
    } else if shape == 2 {
        assert(e.len() == 2);
    } else if shape == 3 {
        assert(e.len() == 2);
    } else if shape == 4 {
        assert(e.len() == 4);
    } else if shape == 5 {
        assert(e.len() == 6);
    } else if shape == 6 {
        assert(e.len() == 4);
    } else if shape == 7 {
        assert(e.len() == 6);
    } else if shape == 8 {
        assert(e.len() == 6);
    } else {
        assert(e.len() == 8);
    }
}

proof fn lemma_shape_entries_bounded(shape: Seq<u8>, degrees: Seq<u8>, voice: usize, j: int)
    requires
        0 <= j <= 8,
        shape.len() == 8,
        forall|k: int| 0 <= k < 8 ==> shape[k] <= 8,
    ensures
        forall|k: int|
            0 <= k < shape_entries(shape, degrees, voice, j).len() ==> (#[trigger] shape_entries(
                shape,
                degrees,
                voice,
                j,
            )[k]).1 <= 1680 && shape_entries(shape, degrees, voice, j)[k].2.length <= 1920,
    decreases j,
{
    if j > 0 {
        lemma_shape_entries_bounded(shape, degrees, voice, j - 1);
    }
}

/// The rhythm shapes (see [`shapes_spec`]).
fn melody_shapes() -> (r: Vec<Vec<u8>>)
    ensures
        r@.len() == 10,
        forall|i: int| 0 <= i < 10 ==> (#[trigger] r@[i])@ == shapes_spec()[i],
{
    let r = vec![
        vec![6, 0, 0, 0, 0, 0, 2, 0],
        vec![2, 0, 6, 0, 0, 0, 0, 0],
        vec![6, 0, 0, 0, 0, 0, 0, 0],
        vec![8, 0, 0, 0, 0, 0, 0, 0],
        vec![4, 0, 0, 0, 4, 0, 0, 0],
        vec![2, 0, 2, 0, 4, 0, 0, 0],
        vec![4, 0, 0, 0, 2, 0, 0, 0],
        vec![2, 0, 2, 0, 2, 0, 0, 0],
        vec![4, 0, 0, 0, 2, 0, 2, 0],
        vec![2, 0, 2, 0, 2, 0, 2, 0],
    ];
    assert(r@.map_values(|v: Vec<u8>| v@) =~~= shapes_spec());
    assert forall|i: int| 0 <= i < 10 implies (#[trigger] r@[i])@ == shapes_spec()[i] by {
        assert(r@.map_values(|v: Vec<u8>| v@)[i] == r@[i]@);
    }
    r
}

/// Writes a melody into every bar: five of the shapes are picked for the
/// run, each bar takes one of those five and a random degree per eighth,
/// every note doubled an octave below (see [`melody_written`]).
pub fn generate_melody(rng: &mut rand::rngs::StdRng, voice: usize, bars: &mut Vec<Bar>)
    ensures
        final(bars)@.len() == old(bars)@.len(),
        forall|i: int|
            0 <= i < old(bars)@.len() ==> melody_written(#[trigger] old(bars)@[i], final(bars)@[i], voice),
{
    let shapes = melody_shapes();
    let mut selected: Vec<usize> = Vec::new();
    let mut s: usize = 0;
    while s < 5
        invariant
            s <= 5,
            shapes@.len() == 10,
            selected@.len() == s,
            forall|k: int| 0 <= k < s ==> (#[trigger] selected@[k]) < 10,
        decreases 5 - s,
    {
        selected.push(gen_index(rng, shapes.len()));
        s = s + 1;
    }
    let mut src: Vec<Bar> = Vec::new();
    std::mem::swap(bars, &mut src);
    let ghost orig = src@;
    let n = src.len();
    let mut i: usize = 0;
    while i < n
        invariant
            i <= n,
            n == orig.len(),
            src@ == orig.subrange(i as int, n as int),
            bars@.len() == i,
            shapes@.len() == 10,
            forall|k: int| 0 <= k < 10 ==> (#[trigger] shapes@[k])@ == shapes_spec()[k],
            selected@.len() == 5,
            forall|k: int| 0 <= k < 5 ==> (#[trigger] selected@[k]) < 10,
            forall|k: int| 0 <= k < i ==> melody_written(#[trigger] orig[k], bars@[k], voice),
        decreases n - i,
    {
        let mut bar = src.remove(0);
        let ghost before = bar;
        assert(before == orig[i as int]);
        let pick = selected[gen_index(rng, selected.len())];
        let shape = &shapes[pick];
        assert(shape@ == shapes_spec()[pick as int]);
        let mut extra: Vec<(usize, u64, Note)> = Vec::new();
        let ghost mut degrees: Seq<u8> = Seq::empty();
        let mut j: usize = 0;
        while j < 8
            invariant
                j <= 8,
                shape@ == shapes_spec()[pick as int],
                pick < 10,
                degrees.len() == j,
                forall|k: int| 0 <= k < j ==> degrees[k] < 7,
                extra@ == shape_entries(shape@, degrees, voice, j as int),
            decreases 8 - j,
        {
            let pitch = gen_index(rng, 7) as u8;
            let ghost old_degrees = degrees;
            proof {
                degrees = degrees.push(pitch);
                assert forall|m: int| 0 <= m <= j implies shape_entries(shape@, degrees, voice, m)
                    == shape_entries(shape@, old_degrees, voice, m) by {
                    lemma_shape_entries_prefix(shape@, old_degrees, degrees, voice, m);
                }
            }
            assert(shape@.len() == 8);
            if shape[j] != 0 {
                let duration = shape[j] as u64 * 240;
                let onset = j as u64 * 240;
                extra.push((voice, onset, Note::new(duration, pitch, 5, None)));
                extra.push((voice, onset, Note::new(duration, pitch, 4, None)));
            }
            assert(extra@ =~= shape_entries(shape@, degrees, voice, j as int + 1));
            j = j + 1;
        }
        append_notes(&mut bar, &extra);
        let ghost prev_bars = bars@;
        bars.push(bar);
        assert(bars@[i as int] == bar);
        assert(appended(orig[i as int], bars@[i as int], melody_of(pick as int, degrees, voice)));
        assert forall|k: int| 0 <= k < i + 1 implies melody_written(#[trigger] orig[k], bars@[k], voice) by {
            if k < i {
                assert(bars@[k] == prev_bars[k]);
            } else {
                assert(appended(orig[k], bars@[k], melody_of(pick as int, degrees, voice)));
            }
        }
        i = i + 1;
    }
}

proof fn lemma_shape_entries_prefix(shape: Seq<u8>, a: Seq<u8>, b: Seq<u8>, voice: usize, m: int)
    requires
        0 <= m <= a.len(),
        a.len() <= b.len(),
        forall|k: int| 0 <= k < a.len() ==> a[k] == b[k],
    ensures
        shape_entries(shape, b, voice, m) == shape_entries(shape, a, voice, m),
    decreases m,
{
    if m > 0 {
        lemma_shape_entries_prefix(shape, a, b, voice, m - 1);
    }
}

/// The first note written for `voice` among `notes`, if any.
pub open spec fn first_of_voice(notes: Seq<(usize, u64, Note)>, voice: usize) -> Option<Note>
    decreases notes.len(),
{
    if notes.len() == 0 {
        None
    } else if notes[0].0 == voice {
        Some(notes[0].2)
    } else {
        first_of_voice(notes.drop_first(), voice)
    }
}

/// The melody note that a bar's chord is built on: the first melody note,
/// or a whole-bar degree 0 in octave 5 when the melody is silent.
pub open spec fn chord_base(b: Bar, melody: usize) -> Note {
    match first_of_voice(b.notes@, melody) {
        Some(n) => n,
        None => Note { length: 1920, pitch: 0, octave: 5, accidental: None },
    }
}

/// A chord tone `step` degrees above the base, in octave 4.
pub open spec fn chord_tone(base: Note, length: u64, step: int) -> Note {
    Note { length, pitch: ((base.pitch % 7 + step) % 7) as u8, octave: 4, accidental: base.accidental }
}

/// The chord written under a bar's melody: the triad on the base degree
/// held for the whole bar, then its root, third and fifth entering on
/// beats 2, 3 and 4 and held to the end.
pub open spec fn chord_spec(b: Bar, melody: usize, voice: usize) -> Seq<(usize, u64, Note)> {
    let base = chord_base(b, melody);
    let whole = (b.beats * 480) as u64;
    seq![
        (voice, 0u64, chord_tone(base, whole, 0)),
        (voice, 0u64, chord_tone(base, whole, 2)),
        (voice, 0u64, chord_tone(base, whole, 4)),
        (voice, 480u64, chord_tone(base, 1440, 0)),
        (voice, 960u64, chord_tone(base, 960, 2)),
        (voice, 1440u64, chord_tone(base, 480, 4)),
    ]
}

/// The added seventh, held for the whole bar.
pub open spec fn seventh_spec(b: Bar, melody: usize, voice: usize) -> (usize, u64, Note) {
    (voice, 0u64, chord_tone(chord_base(b, melody), (b.beats * 480) as u64, 6))
}

fn first_note(bar: &Bar, voice: usize) -> (r: Option<Note>)
    ensures
        r == first_of_voice(bar.notes@, voice),
{
    let mut i: usize = 0;
    assert(bar.notes@.subrange(0, bar.notes@.len() as int) =~= bar.notes@);
    while i < bar.notes.len()
        invariant
            i <= bar.notes@.len(),
            first_of_voice(bar.notes@, voice) == first_of_voice(bar.notes@.subrange(i as int, bar.notes@.len() as int), voice),
        decreases bar.notes@.len() - i,
    {
        let ghost rest = bar.notes@.subrange(i as int, bar.notes@.len() as int);
        assert(rest.drop_first() =~= bar.notes@.subrange(i as int + 1, bar.notes@.len() as int));
        if bar.notes[i].0 == voice {
            return Some(bar.notes[i].2);
        }
        i = i + 1;
    }
    None
}

/// Writes into every bar the chord under its melody (see [`chord_spec`]),
/// with the seventh added on a coin flip.
pub fn generate_chords(rng: &mut rand::rngs::StdRng, melody: usize, voice: usize, bars: &mut Vec<Bar>)
    ensures
        final(bars)@.len() == old(bars)@.len(),
        forall|i: int|
            0 <= i < old(bars)@.len() ==> appended(
                #[trigger] old(bars)@[i],
                final(bars)@[i],
                chord_spec(old(bars)@[i], melody, voice),
            ) || appended(
                old(bars)@[i],
                final(bars)@[i],
                chord_spec(old(bars)@[i], melody, voice).push(seventh_spec(old(bars)@[i], melody, voice)),
            ),
{
    let mut src: Vec<Bar> = Vec::new();
    std::mem::swap(bars, &mut src);
    let ghost orig = src@;
    let n = src.len();
    let mut i: usize = 0;
    while i < n
        invariant
            i <= n,
            n == orig.len(),
            src@ == orig.subrange(i as int, n as int),
            bars@.len() == i,
            forall|k: int|
                0 <= k < i ==> appended(#[trigger] orig[k], bars@[k], chord_spec(orig[k], melody, voice))
                    || appended(
                    orig[k],
                    bars@[k],
                    chord_spec(orig[k], melody, voice).push(seventh_spec(orig[k], melody, voice)),
                ),
        decreases n - i,
    {
        let mut bar = src.remove(0);
        let base = match first_note(&bar, melody) {
            Some(note) => note,
            None => Note::new(1920, 0, 5, None),
        };
        let root = base.pitch % 7;
        let acc = base.accidental;
        let whole = bar.beats as u64 * 480;
        let mut extra = vec![
            (voice, 0, Note::new(whole, root, 4, acc)),
            (voice, 0, Note::new(whole, root + 2, 4, acc)),
            (voice, 0, Note::new(whole, root + 4, 4, acc)),
            (voice, 480, Note::new(1440, root, 4, acc)),
            (voice, 960, Note::new(960, root + 2, 4, acc)),
            (voice, 1440, Note::new(480, root + 4, 4, acc)),
        ];
        assert(extra@ =~= chord_spec(bar, melody, voice));
        if gen_index(rng, 2) == 1 {
            extra.push((voice, 0, Note::new(whole, root + 6, 4, acc)));
        }
        append_notes(&mut bar, &extra);
        bars.push(bar);
        assert(bars@[i as int] == bar);
        i = i + 1;
    }
}

/// `new` is `old` with the chord under its melody written for `voice`,
/// with or without the added seventh.
pub open spec fn chords_written(old: Bar, new: Bar, melody: usize, voice: usize) -> bool {
    appended(old, new, chord_spec(old, melody, voice)) || appended(
        old,
        new,
        chord_spec(old, melody, voice).push(seventh_spec(old, melody, voice)),
    )
}

/// A bar of a generated section: an empty bar of the settings, then a
/// melody in the melody voice, the chords under it in the chord voice,
/// and the rock beat in the bass-drum and snare voices; no other voice.
pub open spec fn section_bar(s: SectionSettings, b: Bar) -> bool {
    exists|blank: Bar, m: Bar, c: Bar|
        #![trigger melody_written(blank, m, MELODY_VOICE), chords_written(m, c, MELODY_VOICE, CHORD_VOICE)]
        blank.notes@.len() == 0 && blank.beats == s.beats && blank.bpm == s.bpm && blank.key == s.key
            && blank.dynamic == s.dynamic && melody_written(blank, m, MELODY_VOICE) && chords_written(
            m,
            c,
            MELODY_VOICE,
            CHORD_VOICE,
        ) && appended(c, b, beat_spec(0, BASSDRUM_VOICE, SNARE_VOICE))
}

/// One section: `length` empty bars with the settings' tempo, key, beat
/// count and loudness, then a melody, its chords and a drum beat written
/// into the melody, chord, bass-drum and snare voices.
pub fn generate_section(rng: &mut rand::rngs::StdRng, settings: SectionSettings) -> (r: Section)
    ensures
        r.bars@.len() == settings.length,
        forall|i: int|
            0 <= i < settings.length ==> (#[trigger] r.bars@[i]).beats == settings.beats && r.bars@[i].bpm
                == settings.bpm && r.bars@[i].key == settings.key && r.bars@[i].dynamic == settings.dynamic,
        forall|i: int| 0 <= i < settings.length ==> section_bar(settings, #[trigger] r.bars@[i]),
        settings.bpm > 0 ==> bars_wf(r.bars@),
{
    let mut bars: Vec<Bar> = Vec::new();
    let mut i: usize = 0;
    while i < settings.length
        invariant
            i <= settings.length,
            bars@.len() == i,
            forall|k: int|
                0 <= k < i ==> (#[trigger] bars@[k]).beats == settings.beats && bars@[k].bpm == settings.bpm
                    && bars@[k].key == settings.key && bars@[k].dynamic == settings.dynamic
                    && bars@[k].notes@.len() == 0,
        decreases settings.length - i,
    {
        bars.push(Bar::new(settings.beats, settings.bpm, settings.key, settings.dynamic));
        i = i + 1;
    }
    let ghost b0 = bars@;
    generate_melody(rng, MELODY_VOICE, &mut bars);
    let ghost b1 = bars@;
    generate_chords(rng, MELODY_VOICE, CHORD_VOICE, &mut bars);
    let ghost b2 = bars@;
    generate_beat(rng, BASSDRUM_VOICE, SNARE_VOICE, &mut bars);
    assert forall|k: int| 0 <= k < settings.length implies (#[trigger] bars@[k]).beats == settings.beats
        && bars@[k].bpm == settings.bpm && bars@[k].key == settings.key && bars@[k].dynamic == settings.dynamic by {
        assert(b0[k].beats == settings.beats);
        assert(melody_written(b0[k], b1[k], MELODY_VOICE));
        assert(appended(b1[k], b2[k], chord_spec(b1[k], MELODY_VOICE, CHORD_VOICE)) || appended(
            b1[k],
            b2[k],
            chord_spec(b1[k], MELODY_VOICE, CHORD_VOICE).push(seventh_spec(b1[k], MELODY_VOICE, CHORD_VOICE)),
        ));
        assert(appended(b2[k], bars@[k], beat_spec(0, BASSDRUM_VOICE, SNARE_VOICE)));
    }
    assert forall|k: int| 0 <= k < settings.length implies section_bar(settings, #[trigger] bars@[k]) by {
        assert(melody_written(b0[k], b1[k], MELODY_VOICE));
        assert(chords_written(b1[k], b2[k], MELODY_VOICE, CHORD_VOICE));
        assert(appended(b2[k], bars@[k], beat_spec(0, BASSDRUM_VOICE, SNARE_VOICE)));
    }
    if settings.bpm > 0 {
        assert forall|k: int| 0 <= k < bars@.len() implies bar_wf(#[trigger] bars@[k]) by {
            assert(b0[k].notes@.len() == 0);
            assert(melody_written(b0[k], b1[k], MELODY_VOICE));
            let (sh, dg) = choose|sh: int, dg: Seq<u8>|
                0 <= sh < 10 && dg.len() == 8 && (forall|q: int| 0 <= q < 8 ==> dg[q] < 7) && appended(
                    b0[k],
                    b1[k],
                    #[trigger] melody_of(sh, dg, MELODY_VOICE),
                );
            let e1 = melody_of(sh, dg, MELODY_VOICE);
            assert(shapes_spec()[sh].len() == 8 && forall|q: int| 0 <= q < 8 ==> shapes_spec()[sh][q] <= 8);
            lemma_shape_entries_bounded(shapes_spec()[sh], dg, MELODY_VOICE, 8);
            let c = chord_spec(b1[k], MELODY_VOICE, CHORD_VOICE);
            let e2 = if appended(b1[k], b2[k], c) {
                c
            } else {
                c.push(seventh_spec(b1[k], MELODY_VOICE, CHORD_VOICE))
            };
            assert(appended(b1[k], b2[k], e2));
            let e3 = beat_spec(0, BASSDRUM_VOICE, SNARE_VOICE);
            let notes = bars@[k].notes@;
            assert(notes =~= e1 + e2 + e3) by {
                assert(b0[k].notes@ + e1 =~= e1);
            }
            assert forall|j: int| 0 <= j < notes.len() implies (#[trigger] notes[j]).1 <= MAX_TICKS
                && notes[j].2.length <= MAX_TICKS by {
                if j < e1.len() {
                    assert(notes[j] == e1[j]);
                    assert(e1[j].1 <= 1680);
                } else if j < e1.len() + e2.len() {
                    assert(notes[j] == e2[j - e1.len()]);
                } else {
                    assert(notes[j] == e3[j - e1.len() - e2.len()]);
                }
            }
        }
    }
    Section::from_bars(bars)
}

} // verus!
