//! A score of sections of bars, each bar holding notes written as scale
//! degrees for several voices, and its conversion into tone events.

use vstd::prelude::*;

use crate::tone::{micros_of, ticks_to_micros, Tone, MAX_TICKS};

verus! {

/// The clock reading (in microseconds) that a score may reach; notes start
/// at most one bar-offset later, which still fits a `u64`.
pub const TIME_LIMIT: u64 = 10_000_000_000_000_000_000;

/// A loudness level.
#[derive(Copy, Clone, PartialEq, Eq, Structural, Debug)]
pub enum Dynamic {
    Piano,
    MezzoPiano,
    MezzoForte,
    Forte,
}

impl Dynamic {
    pub open spec fn velocity_spec(self) -> u8 {
        match self {
            Dynamic::Piano => 52,
            Dynamic::MezzoPiano => 77,
            Dynamic::MezzoForte => 102,
            Dynamic::Forte => 127,
        }
    }

    /// The note velocity (out of 127) of the level.
    pub fn velocity(&self) -> (r: u8)
        ensures
            r == self.velocity_spec(),
    {
        match self {
            Dynamic::Piano => 52,
            Dynamic::MezzoPiano => 77,
            Dynamic::MezzoForte => 102,
            Dynamic::Forte => 127,
        }
    }
}

/// A written note: length in ticks, scale degree, octave and an optional
/// sharp (`true`) or flat (`false`).
#[derive(Copy, Clone, PartialEq, Eq, Structural, Debug)]
pub struct Note {
    pub length: u64,
    pub pitch: u8,
    pub octave: u8,
    pub accidental: Option<bool>,
}

impl Note {
    /// A note on scale degree `pitch` taken modulo 7.
    pub fn new(length: u64, pitch: u8, octave: u8, accidental: Option<bool>) -> (r: Note)
        ensures
            r == (Note { length, pitch: (pitch % 7) as u8, octave, accidental }),
    {
        Note { length, pitch: pitch % 7, octave, accidental }
    }
}

/// The semitone offsets of a mode: major, or harmonic minor.
pub open spec fn score_offset(major: bool, d: int) -> int {
    if major {
        seq![0int, 2, 4, 5, 7, 9, 11][d]
    } else {
        seq![0int, 2, 3, 5, 7, 8, 11][d]
    }
}

/// A key as a tonic offset (in semitones above C) and the offsets of its
/// scale degrees.
#[derive(Copy, Clone, Debug)]
pub struct Key {
    tonic: i8,
    scale: [i8; 7],
}

pub open spec fn accidental_shift(a: Option<bool>) -> int {
    match a {
        Some(true) => 1,
        Some(false) => -1,
        None => 0,
    }
}

impl Key {
    pub closed spec fn tonic_spec(self) -> int {
        self.tonic as int
    }

    pub closed spec fn offset_spec(self, d: int) -> int {
        self.scale@[d] as int
    }

    /// The MIDI pitch of a written note in this key: tonic, the degree's
    /// offset (degree taken modulo 7), twelve per octave, and the accidental.
    pub open spec fn midi_spec(self, n: Note) -> int {
        self.tonic_spec() + self.offset_spec(n.pitch as int % 7) + 12 * n.octave + accidental_shift(
            n.accidental,
        )
    }

    pub fn new(tonic: i8, mode: bool) -> (r: Key)
        ensures
            r.tonic_spec() == tonic,
            forall|d: int| 0 <= d < 7 ==> r.offset_spec(d) == score_offset(mode, d),
    {
        Key { tonic, scale: Key::gen_scale(mode) }
    }

    fn gen_scale(mode: bool) -> (r: [i8; 7])
        ensures
            forall|d: int| 0 <= d < 7 ==> r@[d] == score_offset(mode, d),
    {
        if mode {
            [0, 2, 4, 5, 7, 9, 11]
        } else {
            [0, 2, 3, 5, 7, 8, 11]
        }
    }

    fn midi(&self, note: &Note) -> (r: i32)
        ensures
            r == self.midi_spec(*note),
    {
        let octave: i32 = note.octave as i32 * 12;
        let shift: i32 = match note.accidental {
            Some(true) => 1,
            Some(false) => -1,
            None => 0,
        };
        self.tonic as i32 + self.scale[(note.pitch % 7) as usize] as i32 + octave + shift
    }
}

/// One bar: its length in beats, its notes as `(voice, onset in ticks,
/// note)` in the order they were written, tempo, key and loudness.
#[derive(Clone, Debug)]
pub struct Bar {
    pub beats: u8,
    pub notes: Vec<(usize, u64, Note)>,
    pub bpm: u16,
    pub key: Key,
    pub dynamic: Dynamic,
}

/// The bar can be played: a positive tempo and onsets and lengths in range.
pub open spec fn bar_wf(b: Bar) -> bool {
    &&& b.bpm > 0
    &&& forall|k: int|
        0 <= k < b.notes@.len() ==> (#[trigger] b.notes@[k]).1 <= MAX_TICKS && b.notes@[k].2.length
            <= MAX_TICKS
}

/// How long the bar lasts, in microseconds.
pub open spec fn bar_micros(b: Bar) -> int {
    micros_of(b.beats * 480, b.bpm as int)
}

/// The tone of one entry of a bar that starts at `t`.
pub open spec fn entry_tone(b: Bar, e: (usize, u64, Note), t: int) -> Tone {
    Tone {
        start_time: (t + micros_of(e.1 as int, b.bpm as int)) as u64,
        duration: micros_of(e.2.length as int, b.bpm as int) as u64,
        pitch: b.key.midi_spec(e.2) as i32,
        velocity: b.dynamic.velocity_spec(),
    }
}

/// The tones of `voice` among the first `n` entries of a bar starting at `t`.
pub open spec fn bar_tones(b: Bar, voice: usize, t: int, n: int) -> Seq<Tone>
    decreases n,
{
    if n <= 0 {
        Seq::empty()
    } else {
        let rest = bar_tones(b, voice, t, n - 1);
        if b.notes@[n - 1].0 == voice {
            rest.push(entry_tone(b, b.notes@[n - 1], t))
        } else {
            rest
        }
    }
}

/// How long a run of bars lasts.
pub open spec fn bars_micros(bars: Seq<Bar>) -> int
    decreases bars.len(),
{
    if bars.len() == 0 {
        0
    } else {
        bars_micros(bars.drop_last()) + bar_micros(bars.last())
    }
}

/// The tones of `voice` over a run of bars that starts at `t`, bar by bar.
pub open spec fn bars_tones(bars: Seq<Bar>, voice: usize, t: int) -> Seq<Tone>
    decreases bars.len(),
{
    if bars.len() == 0 {
        Seq::empty()
    } else {
        bars_tones(bars.drop_last(), voice, t) + bar_tones(
            bars.last(),
            voice,
            t + bars_micros(bars.drop_last()),
            bars.last().notes@.len() as int,
        )
    }
}

impl Bar {
    /// An empty bar.
    pub fn new(beats: u8, bpm: u16, key: Key, dynamic: Dynamic) -> (r: Bar)
        ensures
            r.beats == beats,
            r.bpm == bpm,
            r.key == key,
            r.dynamic == dynamic,
            r.notes@.len() == 0,
    {
        Bar { beats, notes: Vec::new(), bpm, key, dynamic }
    }

    /// Writes `note` for `voice` at `beat` ticks into the bar.
    pub fn add_note(&mut self, voice: usize, beat: u64, note: Note)
        ensures
            final(self).notes@ == old(self).notes@.push((voice, beat, note)),
            final(self).beats == old(self).beats,
            final(self).bpm == old(self).bpm,
            final(self).key == old(self).key,
            final(self).dynamic == old(self).dynamic,
    {
        self.notes.push((voice, beat, note));
    }

    /// The bar's tones for `voice`, starting at `*time`, which then moves
    /// on by the bar's length.
    fn convert_to_playable(&self, voice: usize, time: &mut u64) -> (r: Vec<Tone>)
        requires
            bar_wf(*self),
            *old(time) + bar_micros(*self) <= TIME_LIMIT,
        ensures
            r@ == bar_tones(*self, voice, *old(time) as int, self.notes@.len() as int),
            *final(time) == *old(time) + bar_micros(*self),
    {
        let t = *time;
        let bpm = self.bpm as u64;
        let mut r: Vec<Tone> = Vec::new();
        let mut i: usize = 0;
        while i < self.notes.len()
            invariant
                i <= self.notes@.len(),
                bar_wf(*self),
                bpm == self.bpm,
                t + bar_micros(*self) <= TIME_LIMIT,
                r@ == bar_tones(*self, voice, t as int, i as int),
            decreases self.notes@.len() - i,
        {
            let (v, offset, note) = self.notes[i];
            assert(offset <= MAX_TICKS && note.length <= MAX_TICKS);
            if v == voice {
                let tone = note.convert_to_playable(t, self, offset);
                r.push(tone);
            }
            i = i + 1;
        }
        *time = t + ticks_to_micros(self.beats as u64 * 480, bpm);
        r
    }
}

impl Note {
    fn convert_to_playable(&self, time: u64, bar: &Bar, offset: u64) -> (r: Tone)
        requires
            bar.bpm > 0,
            time <= TIME_LIMIT,
            offset <= MAX_TICKS,
            self.length <= MAX_TICKS,
        ensures
            r == entry_tone(*bar, (0usize, offset, *self), time as int),
    {
        let bpm = bar.bpm as u64;
        let start = ticks_to_micros(offset, bpm);
        let duration = ticks_to_micros(self.length, bpm);
        assert(micros_of(offset as int, bpm as int) <= offset * 125_000) by {
            assert(offset * 125_000 / (bpm as int) <= offset * 125_000) by (nonlinear_arith)
                requires bpm >= 1, offset >= 0;
        }
        let pitch = bar.key.midi(self);
        proof {
            assert(bar.key.midi_spec(*self) == pitch);
        }
        Tone::new(time + start, duration, pitch, bar.dynamic.velocity())
    }
}

/// A run of bars.
#[derive(Clone, Debug)]
pub struct Section {
    pub bars: Vec<Bar>,
}

pub open spec fn bars_wf(bars: Seq<Bar>) -> bool {
    forall|k: int| 0 <= k < bars.len() ==> bar_wf(#[trigger] bars[k])
}

proof fn lemma_bars_micros_prefix(bars: Seq<Bar>, n: int)
    requires
        0 <= n <= bars.len(),
        forall|k: int| 0 <= k < bars.len() ==> bar_micros(#[trigger] bars[k]) >= 0,
    ensures
        bars_micros(bars.subrange(0, n)) <= bars_micros(bars),
        bars_micros(bars.subrange(0, n)) >= 0,
    decreases bars.len() - n,
{
    if n < bars.len() {
        lemma_bars_micros_prefix(bars, n + 1);
        assert(bars.subrange(0, n + 1).drop_last() =~= bars.subrange(0, n));
        assert(bar_micros(bars[n]) >= 0);
        assert forall|k: int| 0 <= k < n implies bar_micros(#[trigger] bars.subrange(0, n)[k]) >= 0 by {
            assert(bars.subrange(0, n)[k] == bars[k]);
        }
        lemma_bars_micros_nonneg(bars.subrange(0, n));
    } else {
        assert(bars.subrange(0, n) =~= bars);
        lemma_bars_micros_nonneg(bars);
    }
}

proof fn lemma_bars_micros_nonneg(bars: Seq<Bar>)
    requires
        forall|k: int| 0 <= k < bars.len() ==> bar_micros(#[trigger] bars[k]) >= 0,
    ensures
        bars_micros(bars) >= 0,
    decreases bars.len(),
{
    if bars.len() > 0 {
        assert(bar_micros(bars[bars.len() - 1]) >= 0);
        lemma_bars_micros_nonneg(bars.drop_last());
    }
}

proof fn lemma_bar_micros_nonneg(b: Bar)
    requires
        b.bpm > 0,
    ensures
        bar_micros(b) >= 0,
{
    assert(b.beats * 480 * 125_000 / (b.bpm as int) >= 0) by (nonlinear_arith)
        requires b.bpm > 0, b.beats >= 0;
}

impl Section {
    pub fn from_bars(bars: Vec<Bar>) -> (r: Section)
        ensures
            r == (Section { bars }),
    {
        Section { bars }
    }

    /// The section's tones for `voice`, bar by bar from `*time`, which then
    /// moves on by the section's length.
    pub fn convert_to_playable(&self, voice: usize, time: &mut u64) -> (r: Vec<Tone>)
        requires
            bars_wf(self.bars@),
            *old(time) + bars_micros(self.bars@) <= TIME_LIMIT,
        ensures
            r@ == bars_tones(self.bars@, voice, *old(time) as int),
            *final(time) == *old(time) + bars_micros(self.bars@),
    {
        let ghost t0 = *time as int;
        let mut r: Vec<Tone> = Vec::new();
        let mut i: usize = 0;
        proof {
            assert forall|k: int| 0 <= k < self.bars@.len() implies bar_micros(#[trigger] self.bars@[k]) >= 0 by {
                lemma_bar_micros_nonneg(self.bars@[k]);
            }
        }
        while i < self.bars.len()
            invariant
                i <= self.bars@.len(),
                bars_wf(self.bars@),
                forall|k: int| 0 <= k < self.bars@.len() ==> bar_micros(#[trigger] self.bars@[k]) >= 0,
                t0 + bars_micros(self.bars@) <= TIME_LIMIT,
                *time == t0 + bars_micros(self.bars@.subrange(0, i as int)),
                r@ == bars_tones(self.bars@.subrange(0, i as int), voice, t0),
            decreases self.bars@.len() - i,
        {
            proof {
                lemma_bars_micros_prefix(self.bars@, i as int + 1);
                assert(self.bars@.subrange(0, i as int + 1).drop_last() =~= self.bars@.subrange(0, i as int));
                assert(bar_wf(self.bars@[i as int]));
            }
            let tones = self.bars[i].convert_to_playable(voice, time);
            let ghost before = r@;
            let mut j: usize = 0;
            while j < tones.len()
                invariant
                    j <= tones@.len(),
                    r@ == before + tones@.subrange(0, j as int),
                decreases tones@.len() - j,
            {
                r.push(tones[j]);
                j = j + 1;
            }
            assert(tones@.subrange(0, tones@.len() as int) =~= tones@);
            i = i + 1;
        }
        assert(self.bars@.subrange(0, self.bars@.len() as int) =~= self.bars@);
        r
    }
}

/// A piece as a run of sections.
#[derive(Clone, Debug)]
pub struct Score {
    pub sections: Vec<Section>,
}

/// All bars of a run of sections, in order.
pub open spec fn score_bars(sections: Seq<Section>) -> Seq<Bar>
    decreases sections.len(),
{
    if sections.len() == 0 {
        Seq::empty()
    } else {
        score_bars(sections.drop_last()) + sections.last().bars@
    }
}

/// Every section's bars can be played.
pub open spec fn sections_wf(sections: Seq<Section>) -> bool {
    forall|k: int| 0 <= k < sections.len() ==> bars_wf((#[trigger] sections[k]).bars@)
}

proof fn lemma_bars_concat(a: Seq<Bar>, b: Seq<Bar>, voice: usize, t: int)
    ensures
        bars_micros(a + b) == bars_micros(a) + bars_micros(b),
        bars_tones(a + b, voice, t) == bars_tones(a, voice, t) + bars_tones(b, voice, t + bars_micros(a)),
    decreases b.len(),
{
    if b.len() == 0 {
        assert(a + b =~= a);
        assert(bars_tones(a, voice, t) + Seq::<Tone>::empty() =~= bars_tones(a, voice, t));
    } else {
        assert((a + b).drop_last() =~= a + b.drop_last());
        assert((a + b).last() == b.last());
        lemma_bars_concat(a, b.drop_last(), voice, t);
        let x = bars_tones(a, voice, t);
        let y = bars_tones(b.drop_last(), voice, t + bars_micros(a));
        let z = bar_tones(b.last(), voice, t + bars_micros(a) + bars_micros(b.drop_last()), b.last().notes@.len() as int);
        assert((x + y) + z =~= x + (y + z));
    }
}

proof fn lemma_score_bars_concat(a: Seq<Section>, b: Seq<Section>)
    ensures
        score_bars(a + b) == score_bars(a) + score_bars(b),
    decreases b.len(),
{
    if b.len() == 0 {
        assert(a + b =~= a);
        assert(score_bars(a) + Seq::<Bar>::empty() =~= score_bars(a));
    } else {
        assert((a + b).drop_last() =~= a + b.drop_last());
        lemma_score_bars_concat(a, b.drop_last());
        assert(score_bars(a) + score_bars(b.drop_last()) + b.last().bars@ =~= score_bars(a) + (
        score_bars(b.drop_last()) + b.last().bars@));
    }
}

proof fn lemma_score_bars_wf(sections: Seq<Section>)
    requires
        sections_wf(sections),
    ensures
        bars_wf(score_bars(sections)),
    decreases sections.len(),
{
    if sections.len() > 0 {
        let init = sections.drop_last();
        assert forall|k: int| 0 <= k < init.len() implies bars_wf((#[trigger] init[k]).bars@) by {
            assert(init[k] == sections[k]);
        }
        lemma_score_bars_wf(init);
        assert(bars_wf(sections[sections.len() - 1].bars@));
    }
}

impl Score {
    pub fn from_sections(sections: Vec<Section>) -> (r: Score)
        ensures
            r == (Score { sections }),
    {
        Score { sections }
    }

    /// Whether the score can be converted: every bar well formed (see
    /// [`bar_wf`]) and the whole score within the clock limit.
    pub fn check(&self) -> (r: bool)
        ensures
            r == (sections_wf(self.sections@) && bars_micros(score_bars(self.sections@)) <= TIME_LIMIT),
    {
        let ghost all = self.sections@;
        let mut i: usize = 0;
        while i < self.sections.len()
            invariant
                i <= all.len(),
                all == self.sections@,
                forall|k: int| 0 <= k < i ==> bars_wf((#[trigger] all[k]).bars@),
            decreases all.len() - i,
        {
            let bars = &self.sections[i].bars;
            let mut j: usize = 0;
            while j < bars.len()
                invariant
                    i < all.len(),
                    all == self.sections@,
                    *bars == all[i as int].bars,
                    j <= bars@.len(),
                    forall|k: int| 0 <= k < j ==> bar_wf(#[trigger] bars@[k]),
                decreases bars@.len() - j,
            {
                let bar = &bars[j];
                if bar.bpm == 0 {
                    assert(!bar_wf(bars@[j as int]));
                    assert(!bars_wf(all[i as int].bars@));
                    assert(!sections_wf(all));
                    return false;
                }
                let mut n: usize = 0;
                while n < bar.notes.len()
                    invariant
                        i < all.len(),
                        all == self.sections@,
                        j < bars@.len(),
                        *bars == all[i as int].bars,
                        *bar == bars@[j as int],
                        n <= bar.notes@.len(),
                        forall|k: int|
                            0 <= k < n ==> (#[trigger] bar.notes@[k]).1 <= MAX_TICKS && bar.notes@[k].2.length
                                <= MAX_TICKS,
                    decreases bar.notes@.len() - n,
                {
                    if bar.notes[n].1 > MAX_TICKS || bar.notes[n].2.length > MAX_TICKS {
                        assert(!bar_wf(bars@[j as int]));
                        assert(!bars_wf(all[i as int].bars@));
                        assert(!sections_wf(all));
                        return false;
                    }
                    n = n + 1;
                }
                j = j + 1;
            }
            i = i + 1;
        }
        assert(sections_wf(all));
        proof {
            lemma_score_bars_wf(all);
            assert forall|k: int| 0 <= k < score_bars(all).len() implies bar_micros(#[trigger] score_bars(all)[k]) >= 0 by {
                lemma_bar_micros_nonneg(score_bars(all)[k]);
            }
            assert(all.subrange(0, 0) =~= Seq::<Section>::empty());
        }
        let mut total: u64 = 0;
        i = 0;
        while i < self.sections.len()
            invariant
                i <= all.len(),
                all == self.sections@,
                sections_wf(all),
                forall|k: int| 0 <= k < score_bars(all).len() ==> bar_micros(#[trigger] score_bars(all)[k]) >= 0,
                total == bars_micros(score_bars(all.subrange(0, i as int))),
                total <= TIME_LIMIT,
            decreases all.len() - i,
        {
            let ghost pre = score_bars(all.subrange(0, i as int));
            let ghost sec = all[i as int];
            proof {
                assert(all.subrange(0, i as int + 1).drop_last() =~= all.subrange(0, i as int));
                let suffix = all.subrange(i as int + 1, all.len() as int);
                assert(all =~= all.subrange(0, i as int + 1) + suffix);
                lemma_score_bars_concat(all.subrange(0, i as int + 1), suffix);
                lemma_bars_concat(score_bars(all.subrange(0, i as int + 1)), score_bars(suffix), 0, 0);
                assert forall|k: int| 0 <= k < score_bars(suffix).len() implies bar_micros(#[trigger] score_bars(suffix)[k]) >= 0 by {
                    let n = score_bars(all.subrange(0, i as int + 1)).len();
                    assert(score_bars(all)[n + k] == score_bars(suffix)[k]);
                }
                lemma_bars_micros_nonneg(score_bars(suffix));
                assert(bars_wf(sec.bars@));
                assert(score_bars(all.subrange(0, i as int + 1)) == pre + sec.bars@);
                assert forall|k: int| 0 <= k < sec.bars@.len() implies bar_micros(#[trigger] sec.bars@[k]) >= 0 by {
                    assert(bar_wf(sec.bars@[k]));
                    lemma_bar_micros_nonneg(sec.bars@[k]);
                }
            }
            let bars = &self.sections[i].bars;
            let mut j: usize = 0;
            assert(pre + bars@.subrange(0, 0) =~= pre);
            while j < bars.len()
                invariant
                    i < all.len(),
                    all == self.sections@,
                    *bars == sec.bars,
                    sec == all[i as int],
                    bars_wf(bars@),
                    j <= bars@.len(),
                    total == bars_micros(pre + bars@.subrange(0, j as int)),
                    total <= TIME_LIMIT,
                    bars_micros(pre + bars@) <= bars_micros(score_bars(all)),
                    forall|k: int| 0 <= k < bars@.len() ==> bar_micros(#[trigger] bars@[k]) >= 0,
                decreases bars@.len() - j,
            {
                let bar = &bars[j];
                assert(bar_wf(bars@[j as int]));
                let d = ticks_to_micros(bar.beats as u64 * 480, bar.bpm as u64);
                assert(d <= 255 * 480 * 125_000) by {
                    assert((bar.beats * 480) * 125_000 / (bar.bpm as int) <= (bar.beats * 480) * 125_000) by (nonlinear_arith)
                        requires bar.bpm >= 1, bar.beats >= 0;
                }
                proof {
                    assert((pre + bars@.subrange(0, j as int + 1)).drop_last() =~= pre + bars@.subrange(0, j as int));
                    let rest = bars@.subrange(j as int + 1, bars@.len() as int);
                    assert(pre + bars@ =~= (pre + bars@.subrange(0, j as int + 1)) + rest);
                    lemma_bars_concat(pre + bars@.subrange(0, j as int + 1), rest, 0, 0);
                    assert forall|k: int| 0 <= k < rest.len() implies bar_micros(#[trigger] rest[k]) >= 0 by {
                        assert(rest[k] == bars@[j + 1 + k]);
                    }
                    lemma_bars_micros_nonneg(rest);
                    assert((pre + bars@.subrange(0, j as int + 1)).last() == bars@[j as int]);
                    assert(bars_micros(pre + bars@.subrange(0, j as int + 1)) == total + d);
                }
                if d > TIME_LIMIT - total {
                    return false;
                }
                total = total + d;
                j = j + 1;
            }
            assert(bars@.subrange(0, bars@.len() as int) =~= bars@);
            assert(score_bars(all.subrange(0, i as int + 1)) == pre + sec.bars@);
            i = i + 1;
        }
        assert(all.subrange(0, all.len() as int) =~= all);
        true
    }

    /// The tones of each of the first `voices` voices over the whole score,
    /// bar after bar from time zero.
    pub fn convert_to_playable(&self, voices: usize) -> (r: Vec<Vec<Tone>>)
        requires
            sections_wf(self.sections@),
            bars_micros(score_bars(self.sections@)) <= TIME_LIMIT,
        ensures
            r@.len() == voices,
            forall|v: int| 0 <= v < voices ==> (#[trigger] r@[v])@ == bars_tones(score_bars(self.sections@), v as usize, 0),
    {
        let mut r: Vec<Vec<Tone>> = Vec::new();
        let mut v: usize = 0;
        while v < voices
            invariant
                v <= voices,
                r@.len() == v,
                sections_wf(self.sections@),
                bars_micros(score_bars(self.sections@)) <= TIME_LIMIT,
                forall|w: int| 0 <= w < v ==> (#[trigger] r@[w])@ == bars_tones(score_bars(self.sections@), w as usize, 0),
            decreases voices - v,
        {
            r.push(self.voice_tones(v));
            v = v + 1;
        }
        r
    }

    fn voice_tones(&self, voice: usize) -> (r: Vec<Tone>)
        requires
            sections_wf(self.sections@),
            bars_micros(score_bars(self.sections@)) <= TIME_LIMIT,
        ensures
            r@ == bars_tones(score_bars(self.sections@), voice, 0),
    {
        let ghost all = self.sections@;
        let mut time: u64 = 0;
        let mut r: Vec<Tone> = Vec::new();
        let mut i: usize = 0;
        proof {
            lemma_score_bars_wf(all);
            assert forall|k: int| 0 <= k < score_bars(all).len() implies bar_micros(#[trigger] score_bars(all)[k]) >= 0 by {
                lemma_bar_micros_nonneg(score_bars(all)[k]);
            }
            assert(all.subrange(0, 0) =~= Seq::<Section>::empty());
        }
        while i < self.sections.len()
            invariant
                i <= all.len(),
                all == self.sections@,
                sections_wf(all),
                bars_wf(score_bars(all)),
                forall|k: int| 0 <= k < score_bars(all).len() ==> bar_micros(#[trigger] score_bars(all)[k]) >= 0,
                bars_micros(score_bars(all)) <= TIME_LIMIT,
                time == bars_micros(score_bars(all.subrange(0, i as int))),
                r@ == bars_tones(score_bars(all.subrange(0, i as int)), voice, 0),
            decreases all.len() - i,
        {
            let ghost pre = all.subrange(0, i as int);
            let ghost sec = all[i as int];
            proof {
                assert(all.subrange(0, i as int + 1) =~= pre.push(sec));
                assert(pre.push(sec).drop_last() =~= pre);
                assert(score_bars(all.subrange(0, i as int + 1)) == score_bars(pre) + sec.bars@);
                lemma_bars_concat(score_bars(pre), sec.bars@, voice, 0);
                let suffix = all.subrange(i as int + 1, all.len() as int);
                assert(all =~= all.subrange(0, i as int + 1) + suffix);
                lemma_score_bars_concat(all.subrange(0, i as int + 1), suffix);
                lemma_bars_concat(score_bars(all.subrange(0, i as int + 1)), score_bars(suffix), voice, 0);
                assert forall|k: int| 0 <= k < score_bars(suffix).len() implies bar_micros(#[trigger] score_bars(suffix)[k]) >= 0 by {
                    let n = score_bars(all.subrange(0, i as int + 1)).len();
                    assert(score_bars(all)[n + k] == score_bars(suffix)[k]);
                }
                lemma_bars_micros_nonneg(score_bars(suffix));
                assert(bars_wf(sec.bars@));
            }
            let tones = self.sections[i].convert_to_playable(voice, &mut time);
            let ghost before = r@;
            let mut j: usize = 0;
            while j < tones.len()
                invariant
                    j <= tones@.len(),
                    r@ == before + tones@.subrange(0, j as int),
                decreases tones@.len() - j,
            {
                r.push(tones[j]);
                j = j + 1;
            }
            assert(tones@.subrange(0, tones@.len() as int) =~= tones@);
            i = i + 1;
        }
        assert(all.subrange(0, all.len() as int) =~= all);
        r
    }
}

} // verus!
