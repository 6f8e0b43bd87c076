//! The instrument scheduler, which places one voice of a synth per note on
//! a shared timeline, and the mix bus that sums instruments.

use vstd::prelude::*;

use crate::synth::{release_of, Synth};
use crate::tone::Tone;

verus! {

/// Width of the fade at each end of a scheduled note, against clicks.
pub const FADE_MICROS: u64 = 10_000;

/// When a note has fallen silent: onset, length, then the release tail.
pub open spec fn note_end(t: Tone, release: int) -> int {
    t.start_time + t.duration + release
}

/// Every note's end fits the timeline's clock.
pub open spec fn notes_fit(notes: Seq<Tone>, release: int) -> bool {
    forall|k: int| 0 <= k < notes.len() ==> note_end(#[trigger] notes[k], release) <= u64::MAX
}

/// The latest end of a sounding (non-rest) note; zero when none sounds.
pub open spec fn notes_duration(notes: Seq<Tone>, release: int) -> int
    decreases notes.len(),
{
    if notes.len() == 0 {
        0
    } else {
        let rest = notes_duration(notes.drop_last(), release);
        let last = notes.last();
        if last.is_rest() || note_end(last, release) <= rest {
            rest
        } else {
            note_end(last, release)
        }
    }
}

/// One entry of the timeline: the voice sounds from `start` to `end`, its
/// gate open until `gate_end`.
#[derive(Copy, Clone, PartialEq, Eq, Structural, Debug)]
pub struct ScheduledNote {
    pub start: u64,
    pub gate_end: u64,
    pub end: u64,
    pub pitch: i32,
    pub velocity: u8,
}

pub open spec fn scheduled(t: Tone, release: int) -> ScheduledNote {
    ScheduledNote {
        start: t.start_time,
        gate_end: (t.start_time + t.duration) as u64,
        end: note_end(t, release) as u64,
        pitch: t.pitch,
        velocity: t.velocity,
    }
}

/// The timeline of a note list: an entry per sounding note, in order;
/// rests are left out.
pub open spec fn schedule_of(notes: Seq<Tone>, release: int) -> Seq<ScheduledNote>
    decreases notes.len(),
{
    if notes.len() == 0 {
        Seq::empty()
    } else {
        let rest = schedule_of(notes.drop_last(), release);
        if notes.last().is_rest() {
            rest
        } else {
            rest.push(scheduled(notes.last(), release))
        }
    }
}

/// A synth bound to the notes it plays.
#[derive(Debug)]
pub struct Instrument {
    pub synth: Synth,
    pub notes: Vec<Tone>,
}

pub open spec fn instrument_duration(i: Instrument) -> int {
    notes_duration(i.notes@, release_of(i.synth))
}

pub open spec fn instrument_fits(i: Instrument) -> bool {
    notes_fit(i.notes@, release_of(i.synth))
}

impl Instrument {
    pub fn new(synth: Synth, notes: Vec<Tone>) -> (r: Instrument)
        ensures
            r == (Instrument { synth, notes }),
    {
        Instrument { synth, notes }
    }

    /// The release tail of the instrument's synth.
    pub fn release_time(&self) -> (r: u64)
        ensures
            r == release_of(self.synth),
    {
        self.synth.release_time()
    }

    /// The total length of the instrument's sound: the latest onset plus
    /// length plus release tail over its sounding notes; zero when it has
    /// none.
    pub fn duration(&self) -> (r: u64)
        requires
            instrument_fits(*self),
        ensures
            r == instrument_duration(*self),
    {
        let release = self.synth.release_time();
        Instrument::find_duration(&self.notes, release)
    }

    fn find_duration(notes: &Vec<Tone>, release_time: u64) -> (r: u64)
        requires
            notes_fit(notes@, release_time as int),
        ensures
            r == notes_duration(notes@, release_time as int),
    {
        let mut end: u64 = 0;
        let mut i: usize = 0;
        while i < notes.len()
            invariant
                i <= notes@.len(),
                notes_fit(notes@, release_time as int),
                end == notes_duration(notes@.subrange(0, i as int), release_time as int),
            decreases notes@.len() - i,
        {
            let note = notes[i];
            assert(notes@.subrange(0, i as int + 1).drop_last() =~= notes@.subrange(0, i as int));
            assert(note_end(notes@[i as int], release_time as int) <= u64::MAX);
            if note.pitch > 0 {
                let e = note.start_time + note.duration + release_time;
                if e > end {
                    end = e;
                }
            }
            i = i + 1;
        }
        assert(notes@.subrange(0, notes@.len() as int) =~= notes@);
        end
    }

    /// The timeline entries of the instrument's sounding notes, in order.
    pub fn schedule(&self) -> (r: Vec<ScheduledNote>)
        requires
            instrument_fits(*self),
        ensures
            r@ == schedule_of(self.notes@, release_of(self.synth)),
    {
        let release = self.synth.release_time();
        let mut r: Vec<ScheduledNote> = Vec::new();
        let mut i: usize = 0;
        while i < self.notes.len()
            invariant
                i <= self.notes@.len(),
                release == release_of(self.synth),
                notes_fit(self.notes@, release as int),
                r@ == schedule_of(self.notes@.subrange(0, i as int), release as int),
            decreases self.notes@.len() - i,
        {
            let note = self.notes[i];
            assert(self.notes@.subrange(0, i as int + 1).drop_last() =~= self.notes@.subrange(0, i as int));
            assert(note_end(self.notes@[i as int], release as int) <= u64::MAX);
            if note.pitch > 0 {
                r.push(
                    ScheduledNote {
                        start: note.start_time,
                        gate_end: note.start_time + note.duration,
                        end: note.start_time + note.duration + release,
                        pitch: note.pitch,
                        velocity: note.velocity,
                    },
                );
            }
            i = i + 1;
        }
        assert(self.notes@.subrange(0, self.notes@.len() as int) =~= self.notes@);
        r
    }
}

/// The instrument's duration bounds every sounding note's end and, unless
/// no note sounds (then it is zero), equals one of them.
pub proof fn lemma_duration_is_latest_end(notes: Seq<Tone>, release: int)
    requires
        release >= 0,
    ensures
        forall|k: int|
            0 <= k < notes.len() && !notes[k].is_rest() ==> note_end(#[trigger] notes[k], release)
                <= notes_duration(notes, release),
        (forall|k: int| 0 <= k < notes.len() ==> (#[trigger] notes[k]).is_rest()) ==> notes_duration(
            notes,
            release,
        ) == 0,
        (exists|k: int| 0 <= k < notes.len() && !(#[trigger] notes[k]).is_rest()) ==> exists|k: int|
            0 <= k < notes.len() && !notes[k].is_rest() && note_end(#[trigger] notes[k], release)
                == notes_duration(notes, release),
    decreases notes.len(),
{
    if notes.len() > 0 {
        let init = notes.drop_last();
        lemma_duration_is_latest_end(init, release);
        assert forall|k: int| 0 <= k < init.len() implies init[k] == notes[k] by {}
        if exists|k: int| 0 <= k < notes.len() && !(#[trigger] notes[k]).is_rest() {
            if !notes.last().is_rest() && note_end(notes.last(), release) > notes_duration(init, release) {
                assert(note_end(notes[notes.len() - 1], release) == notes_duration(notes, release));
            } else if !notes.last().is_rest() {
                if exists|k: int| 0 <= k < init.len() && !(#[trigger] init[k]).is_rest() {
                    let k = choose|k: int| 0 <= k < init.len() && !init[k].is_rest() && note_end(#[trigger] init[k], release)
                        == notes_duration(init, release);
                    assert(notes[k] == init[k]);
                } else {
                    assert(notes_duration(init, release) == 0);
                    assert(note_end(notes[notes.len() - 1], release) >= 0);
                    assert(note_end(notes[notes.len() - 1], release) == notes_duration(notes, release));
                }
            } else {
                let j = choose|j: int| 0 <= j < notes.len() && !(#[trigger] notes[j]).is_rest();
                assert(j < init.len());
                assert(!init[j].is_rest());
                let k = choose|k: int| 0 <= k < init.len() && !init[k].is_rest() && note_end(#[trigger] init[k], release)
                    == notes_duration(init, release);
                assert(notes[k] == init[k]);
            }
        }
        assert forall|k: int|
            0 <= k < notes.len() && !notes[k].is_rest() implies note_end(#[trigger] notes[k], release)
                <= notes_duration(notes, release) by {
            if k < init.len() {
                assert(notes[k] == init[k]);
            }
        }
        if forall|k: int| 0 <= k < notes.len() ==> (#[trigger] notes[k]).is_rest() {
            assert forall|k: int| 0 <= k < init.len() implies (#[trigger] init[k]).is_rest() by {
                assert(notes[k] == init[k]);
            }
            assert(notes[notes.len() - 1].is_rest());
        }
    }
}

/// The note sounds at time `t`.
pub open spec fn sounds_at(n: Tone, t: int) -> bool {
    n.start_time <= t < n.start_time + n.duration
}

/// A synth played as one voice whose pitch follows the notes: at each
/// moment it takes the pitch of the note sounding then that started last.
#[derive(Debug)]
pub struct SingleVoiceInstrument {
    pub synth: Synth,
    pub notes: Vec<Tone>,
}

impl SingleVoiceInstrument {
    /// The voice with its notes ordered latest onset first.
    pub fn new(synth: Synth, notes: Vec<Tone>) -> (r: SingleVoiceInstrument)
        ensures
            r.synth == synth,
            onset_desc(r.notes@),
            r.notes@.to_multiset() =~= notes@.to_multiset(),
    {
        SingleVoiceInstrument { synth, notes: sort_by_onset_desc(notes) }
    }

    pub fn release_time(&self) -> (r: u64)
        ensures
            r == release_of(self.synth),
    {
        self.synth.release_time()
    }

    /// The latest onset plus length plus release tail over the sounding
    /// (non-rest) notes; zero when none sounds.
    pub fn duration(&self) -> (r: u64)
        requires
            notes_fit(self.notes@, release_of(self.synth)),
        ensures
            r == notes_duration(self.notes@, release_of(self.synth)),
    {
        let release = self.synth.release_time();
        Instrument::find_duration(&self.notes, release)
    }

    /// The pitch the voice plays at `time`: that of the first note in
    /// `notes` that sounds then (notes kept latest onset first, so the
    /// latest-started sounding note); zero when no note sounds.
    pub fn get_pitch_by_time(notes: &Vec<Tone>, time: u64) -> (r: i32)
        ensures
            (forall|k: int| 0 <= k < notes@.len() ==> !sounds_at(#[trigger] notes@[k], time as int)) ==> r == 0,
            forall|k: int|
                0 <= k < notes@.len() && sounds_at(notes@[k], time as int) && (forall|j: int|
                    0 <= j < k ==> !sounds_at(#[trigger] notes@[j], time as int)) ==> r == (#[trigger] notes@[k]).pitch,
    {
        let mut i: usize = 0;
        while i < notes.len()
            invariant
                i <= notes@.len(),
                forall|j: int| 0 <= j < i ==> !sounds_at(#[trigger] notes@[j], time as int),
            decreases notes@.len() - i,
        {
            let n = notes[i];
            if n.start_time <= time && (time as u128) < n.start_time as u128 + n.duration as u128 {
                return n.pitch;
            }
            i = i + 1;
        }
        0
    }
}

/// Onsets never increase along the list.
pub open spec fn onset_desc(s: Seq<Tone>) -> bool {
    forall|i: int, j: int| 0 <= i < j < s.len() ==> (#[trigger] s[i]).start_time >= (#[trigger] s[j]).start_time
}

proof fn lemma_insert_multiset(s: Seq<Tone>, i: int, a: Tone)
    requires
        0 <= i <= s.len(),
    ensures
        s.insert(i, a).to_multiset() =~= s.to_multiset().insert(a),
{
    let t = s.insert(i, a);
    assert(t.remove(i) =~= s);
    t.to_multiset_ensures();
    assert(t[i] == a);
    assert(t.contains(a));
    vstd::seq_lib::to_multiset_contains(t, a);
    assert(s.to_multiset() =~= t.to_multiset().remove(a));
}

/// The notes ordered latest onset first, equal onsets in their given order.
fn sort_by_onset_desc(notes: Vec<Tone>) -> (r: Vec<Tone>)
    ensures
        onset_desc(r@),
        r@.to_multiset() =~= notes@.to_multiset(),
{
    let mut r: Vec<Tone> = Vec::new();
    let mut i: usize = 0;
    assert(r@ =~= notes@.subrange(0, 0));
    while i < notes.len()
        invariant
            i <= notes@.len(),
            onset_desc(r@),
            r@.to_multiset() =~= notes@.subrange(0, i as int).to_multiset(),
        decreases notes@.len() - i,
    {
        let t = notes[i];
        let mut pos: usize = 0;
        while pos < r.len() && r[pos].start_time >= t.start_time
            invariant
                pos <= r@.len(),
                forall|k: int| 0 <= k < pos ==> (#[trigger] r@[k]).start_time >= t.start_time,
            decreases r@.len() - pos,
        {
            pos = pos + 1;
        }
        let ghost before = r@;
        r.insert(pos, t);
        proof {
            lemma_insert_multiset(before, pos as int, t);
            let s = notes@;
            assert(s.subrange(0, i as int + 1) =~= s.subrange(0, i as int).push(t));
            s.subrange(0, i as int).to_multiset_ensures();
            assert forall|a: int, b: int| 0 <= a < b < r@.len() implies (#[trigger] r@[a]).start_time
                >= (#[trigger] r@[b]).start_time by {
                if pos < before.len() {
                    assert(before[pos as int].start_time < t.start_time);
                }
                if b < pos {
                } else if b == pos {
                    assert(r@[a] == before[a]);
                } else if a < pos {
                    assert(r@[b] == before[b - 1]);
                    assert(r@[a] == before[a]);
                } else if a == pos {
                    assert(r@[b] == before[b - 1]);
                    assert(before[pos as int].start_time >= before[b - 1].start_time || b - 1 == pos);
                } else {
                    assert(r@[a] == before[a - 1]);
                    assert(r@[b] == before[b - 1]);
                }
            }
        }
        i = i + 1;
    }
    assert(notes@.subrange(0, notes@.len() as int) =~= notes@);
    r
}

/// Instruments summed into one output.
#[derive(Debug)]
pub struct SoundMix {
    pub sounds: Vec<Instrument>,
}

/// The longest duration among the instruments, zero for none.
pub open spec fn mix_duration(s: Seq<Instrument>) -> int
    decreases s.len(),
{
    if s.len() == 0 {
        0
    } else {
        let rest = mix_duration(s.drop_last());
        let last = instrument_duration(s.last());
        if last <= rest {
            rest
        } else {
            last
        }
    }
}

impl SoundMix {
    pub fn mix(sounds: Vec<Instrument>) -> (r: SoundMix)
        ensures
            r == (SoundMix { sounds }),
    {
        SoundMix { sounds }
    }

    /// The mix lasts as long as its longest instrument.
    pub fn duration(&self) -> (r: u64)
        requires
            forall|i: int| 0 <= i < self.sounds@.len() ==> instrument_fits(#[trigger] self.sounds@[i]),
        ensures
            r == mix_duration(self.sounds@),
    {
        let mut best: u64 = 0;
        let mut i: usize = 0;
        while i < self.sounds.len()
            invariant
                i <= self.sounds@.len(),
                forall|j: int| 0 <= j < self.sounds@.len() ==> instrument_fits(#[trigger] self.sounds@[j]),
                best == mix_duration(self.sounds@.subrange(0, i as int)),
            decreases self.sounds@.len() - i,
        {
            assert(self.sounds@.subrange(0, i as int + 1).drop_last() =~= self.sounds@.subrange(0, i as int));
            assert(instrument_fits(self.sounds@[i as int]));
            let d = self.sounds[i].duration();
            if d > best {
                best = d;
            }
            i = i + 1;
        }
        assert(self.sounds@.subrange(0, self.sounds@.len() as int) =~= self.sounds@);
        best
    }
}

proof fn lemma_notes_duration_nonneg(notes: Seq<Tone>, release: int)
    ensures
        notes_duration(notes, release) >= 0,
    decreases notes.len(),
{
    if notes.len() > 0 {
        lemma_notes_duration_nonneg(notes.drop_last(), release);
    }
}

/// The mix's duration bounds every instrument's duration and, for a
/// non-empty mix, equals one of them; an empty mix lasts zero.
pub proof fn lemma_mix_duration_is_max(s: Seq<Instrument>)
    ensures
        forall|i: int| 0 <= i < s.len() ==> instrument_duration(#[trigger] s[i]) <= mix_duration(s),
        s.len() == 0 ==> mix_duration(s) == 0,
        s.len() > 0 ==> exists|i: int|
            0 <= i < s.len() && instrument_duration(#[trigger] s[i]) == mix_duration(s),
    decreases s.len(),
{
    if s.len() > 0 {
        let init = s.drop_last();
        lemma_mix_duration_is_max(init);
        assert forall|i: int| 0 <= i < s.len() implies instrument_duration(#[trigger] s[i]) <= mix_duration(s) by {
            if i < init.len() {
                assert(s[i] == init[i]);
            }
        }
        let last = s.len() - 1;
        if instrument_duration(s.last()) <= mix_duration(init) {
            if init.len() > 0 {
                let j = choose|j: int| 0 <= j < init.len() && instrument_duration(#[trigger] init[j]) == mix_duration(init);
                assert(s[j] == init[j]);
            } else {
                lemma_notes_duration_nonneg(s.last().notes@, release_of(s.last().synth));
                assert(instrument_duration(s[last]) == mix_duration(s));
            }
        } else {
            assert(instrument_duration(s[last]) == mix_duration(s));
        }
    }
}

/// Mixing does not depend on the order of the instruments: any reordering
/// of the same instruments lasts exactly as long.
pub proof fn lemma_mix_duration_order_free(a: Seq<Instrument>, b: Seq<Instrument>)
    requires
        a.to_multiset() =~= b.to_multiset(),
    ensures
        mix_duration(a) == mix_duration(b),
{
    lemma_mix_duration_is_max(a);
    lemma_mix_duration_is_max(b);
    if a.len() > 0 {
        let i = choose|i: int| 0 <= i < a.len() && instrument_duration(#[trigger] a[i]) == mix_duration(a);
        vstd::seq_lib::to_multiset_contains(a, a[i]);
        vstd::seq_lib::to_multiset_contains(b, a[i]);
        assert(a.contains(a[i]));
        let k = choose|k: int| 0 <= k < b.len() && b[k] == a[i];
        assert(instrument_duration(b[k]) <= mix_duration(b));
    }
    if b.len() > 0 {
        let j = choose|j: int| 0 <= j < b.len() && instrument_duration(#[trigger] b[j]) == mix_duration(b);
        vstd::seq_lib::to_multiset_contains(a, b[j]);
        vstd::seq_lib::to_multiset_contains(b, b[j]);
        assert(b.contains(b[j]));
        let k = choose|k: int| 0 <= k < a.len() && a[k] == b[j];
        assert(instrument_duration(a[k]) <= mix_duration(a));
    }
    if a.len() == 0 {
        a.to_multiset_ensures();
        b.to_multiset_ensures();
    }
}

} // verus!
