//! Pitch classes, keys, triads and the harmonic skeleton of a piece.

use vstd::prelude::*;

use crate::rng::gen_index;
use crate::scale::mode_offset;

verus! {

/// One of the twelve semitone classes, `C` at index 0.
#[derive(Copy, Clone, PartialEq, Eq, Structural, Debug)]
pub enum Note {
    C,
    Db,
    D,
    Eb,
    E,
    F,
    Gb,
    G,
    Ab,
    A,
    Bb,
    B,
}

/// The lowest pitch that `midi_range` hands back for a note whose octave-4
/// pitch is `v`: `v` itself inside `[min, max]`, else the nearest octave
/// transposition inside the window's edge that was crossed.
pub open spec fn in_register(v: int, min: int, max: int) -> int {
    if min <= v && v <= max {
        v
    } else if v < min {
        v + 12 * ((min - v + 11) / 12)
    } else {
        v - 12 * ((v - max + 11) / 12)
    }
}

impl Note {
    /// The semitone index of the class, 0 for `C` up to 11 for `B`.
    pub open spec fn pc(self) -> int {
        match self {
            Note::C => 0,
            Note::Db => 1,
            Note::D => 2,
            Note::Eb => 3,
            Note::E => 4,
            Note::F => 5,
            Note::Gb => 6,
            Note::G => 7,
            Note::Ab => 8,
            Note::A => 9,
            Note::Bb => 10,
            Note::B => 11,
        }
    }

    pub open spec fn midi_spec(self) -> int {
        60 + self.pc()
    }

    /// The class a given number of semitones above this one.
    pub fn shift_by(&self, semitones: u8) -> (r: Note)
        ensures
            r.pc() == (self.pc() + semitones) % 12,
    {
        let x = self.midi() - 60 + semitones % 12;
        assert((self.pc() + semitones % 12) % 12 == (self.pc() + semitones) % 12) by (nonlinear_arith)
            requires 0 <= self.pc() < 12, semitones >= 0;
        Note::from_midi(x)
    }

    /// The pitch of this class in octave 4 (middle C is 60).
    pub fn midi(&self) -> (r: u8)
        ensures
            r == self.midi_spec(),
    {
        let i: u8 = match self {
            Note::C => 0,
            Note::Db => 1,
            Note::D => 2,
            Note::Eb => 3,
            Note::E => 4,
            Note::F => 5,
            Note::Gb => 6,
            Note::G => 7,
            Note::Ab => 8,
            Note::A => 9,
            Note::Bb => 10,
            Note::B => 11,
        };
        60 + i
    }

    /// The class of an absolute pitch.
    pub fn from_midi(midi: u8) -> (r: Note)
        ensures
            r.pc() == midi % 12,
    {
        match midi % 12 {
            0 => Note::C,
            1 => Note::Db,
            2 => Note::D,
            3 => Note::Eb,
            4 => Note::E,
            5 => Note::F,
            6 => Note::Gb,
            7 => Note::G,
            8 => Note::Ab,
            9 => Note::A,
            10 => Note::Bb,
            _ => Note::B,
        }
    }

    /// This class moved by whole octaves into the register `[min, max]`:
    /// unchanged inside it, else the nearest transposition across the edge
    /// that was crossed. Inside the register whenever it spans an octave.
    pub fn midi_range(&self, min: u8, max: u8) -> (r: u8)
        requires
            min <= 244,
            min <= max,
            max >= 11,
        ensures
            r == in_register(self.midi_spec(), min as int, max as int),
            r % 12 == self.pc(),
            r >= min || r + 12 > max,
            r <= max || r < min + 12,
            max - min >= 11 ==> min <= r <= max,
    {
        let v = self.midi();
        proof {
            let vi = v as int;
            let mi = min as int;
            let ma = max as int;
            if vi < mi {
                let k = (mi - vi + 11) / 12;
                assert(12 * k >= mi - vi && 12 * k < mi - vi + 12) by (nonlinear_arith)
                    requires k == (mi - vi + 11) / 12, mi - vi > 0;
            } else if vi > ma {
                let k = (vi - ma + 11) / 12;
                assert(12 * k >= vi - ma && 12 * k < vi - ma + 12) by (nonlinear_arith)
                    requires k == (vi - ma + 11) / 12, vi - ma > 0;
            }
        }
        if v >= min && v <= max {
            v
        } else if v < min {
            v + 12 * ((min - v + 11) / 12)
        } else {
            v - 12 * ((v - max + 11) / 12)
        }
    }
}

/// The triad qualities, each fixing the third's and the fifth's interval
/// above the root.
#[derive(Copy, Clone, PartialEq, Eq, Structural, Debug)]
pub enum ChordType {
    Major,
    Minor,
    Diminished,
    Augmented,
}

impl ChordType {
    pub open spec fn third_spec(self) -> int {
        match self {
            ChordType::Major | ChordType::Augmented => 4,
            ChordType::Minor | ChordType::Diminished => 3,
        }
    }

    pub open spec fn fifth_spec(self) -> int {
        match self {
            ChordType::Major | ChordType::Minor => 7,
            ChordType::Diminished => 6,
            ChordType::Augmented => 8,
        }
    }

    /// Semitones from root to third.
    pub fn third(&self) -> (r: u8)
        ensures
            r == self.third_spec(),
    {
        match self {
            ChordType::Major | ChordType::Augmented => 4,
            ChordType::Minor | ChordType::Diminished => 3,
        }
    }

    /// Semitones from root to fifth.
    pub fn fifth(&self) -> (r: u8)
        ensures
            r == self.fifth_spec(),
    {
        match self {
            ChordType::Major | ChordType::Minor => 7,
            ChordType::Diminished => 6,
            ChordType::Augmented => 8,
        }
    }
}

/// Which chord member sounds lowest: the root, the third (root raised an
/// octave) or the fifth (root and third raised an octave).
#[derive(Copy, Clone, PartialEq, Eq, Structural, Debug)]
pub enum Inversion {
    Normal,
    First,
    Second,
}

/// The voiced triad over a root pitch, lowest member first.
pub open spec fn voiced(root: int, t: ChordType, inv: Inversion) -> Seq<int> {
    let third = root + t.third_spec();
    let fifth = root + t.fifth_spec();
    match inv {
        Inversion::Normal => seq![root, third, fifth],
        Inversion::First => seq![third, fifth, root + 12],
        Inversion::Second => seq![fifth, root + 12, third + 12],
    }
}

/// A set of chord tones, as pitch classes.
#[derive(Clone, Debug)]
pub struct Chord(pub Vec<Note>);

impl Chord {
    /// One of the chord's tones, picked at random, placed by
    /// [`Chord::i_from_range`].
    pub fn rand_from_range(&self, rng: &mut rand::rngs::StdRng, range: &(u8, u8)) -> (r: u8)
        requires
            self.0@.len() > 0,
            range.0 <= 244,
            range.0 <= range.1,
            range.1 >= 11,
        ensures
            exists|i: int|
                0 <= i < self.0@.len() && #[trigger] self.0@[i].pc() == r % 12 && (r
                    == in_register(self.0@[i].midi_spec(), range.0 as int, range.1 as int) || (
                range.0 <= r <= range.1)),
            range.1 - range.0 >= 11 ==> range.0 <= r <= range.1,
    {
        let i = gen_index(rng, self.0.len());
        self.i_from_range(rng, i, range)
    }

    /// The `i`-th tone in one of its octaves inside the register: the
    /// transposition given by `Note::midi_range` or one a whole number of
    /// octaves from it that stays in `[range.0, range.1]`, picked at random.
    pub fn i_from_range(&self, rng: &mut rand::rngs::StdRng, i: usize, range: &(u8, u8)) -> (r: u8)
        requires
            i < self.0@.len(),
            range.0 <= 244,
            range.0 <= range.1,
            range.1 >= 11,
        ensures
            r % 12 == self.0@[i as int].pc(),
            r == in_register(self.0@[i as int].midi_spec(), range.0 as int, range.1 as int) || (
            range.0 <= r <= range.1),
            range.1 - range.0 >= 11 ==> range.0 <= r <= range.1,
    {
        let (lo, hi) = *range;
        let v = self.0[i];
        let in_range = v.midi_range(lo, hi);
        let mut possibs: Vec<u8> = Vec::new();
        possibs.push(in_range);
        let mut cur: u8 = in_range;
        while hi >= 12 && cur <= hi - 12
            invariant
                in_range >= lo || in_range + 12 > hi,
                cur % 12 == v.pc(),
                cur >= in_range,
                possibs@.len() > 0,
                forall|k: int|
                    0 <= k < possibs@.len() ==> (#[trigger] possibs@[k]) % 12 == v.pc() && (
                    possibs@[k] == in_range || (lo <= possibs@[k] <= hi)),
            decreases hi - cur,
        {
            cur = cur + 12;
            possibs.push(cur);
        }
        cur = in_range;
        while cur >= 12 && cur - 12 >= lo
            invariant
                in_range <= hi || in_range < lo + 12,
                cur % 12 == v.pc(),
                cur <= in_range,
                possibs@.len() > 0,
                forall|k: int|
                    0 <= k < possibs@.len() ==> (#[trigger] possibs@[k]) % 12 == v.pc() && (
                    possibs@[k] == in_range || (lo <= possibs@[k] <= hi)),
            decreases cur,
        {
            cur = cur - 12;
            possibs.push(cur);
        }
        let k = gen_index(rng, possibs.len());
        possibs[k]
    }
}

/// A key: whether it is major, and its tonic.
#[derive(Copy, Clone, PartialEq, Eq, Structural, Debug)]
pub struct Key(pub bool, pub Note);

impl Key {
    /// The pitch class of scale degree `d` (taken modulo 7).
    pub open spec fn degree_pc(self, d: int) -> int {
        (self.1.pc() + mode_offset(self.0, d % 7)) % 12
    }

    /// The seven classes of the key's scale, degree by degree.
    pub fn scale(&self) -> (r: Vec<Note>)
        ensures
            r@.len() == 7,
            forall|d: int| 0 <= d < 7 ==> (#[trigger] r@[d]).pc() == self.degree_pc(d),
    {
        let offsets = self.offsets();
        let mut r: Vec<Note> = Vec::new();
        let mut i: usize = 0;
        while i < 7
            invariant
                i <= 7,
                r@.len() == i,
                forall|d: int| 0 <= d < 7 ==> offsets@[d] == mode_offset(self.0, d),
                forall|d: int| 0 <= d < i ==> (#[trigger] r@[d]).pc() == self.degree_pc(d),
            decreases 7 - i,
        {
            r.push(self.1.shift_by(offsets[i]));
            i = i + 1;
        }
        r
    }

    /// The class of a scale degree, taken modulo 7.
    pub fn from_index(&self, index: usize) -> (r: Note)
        ensures
            r.pc() == self.degree_pc(index as int),
    {
        let offsets = self.offsets();
        self.1.shift_by(offsets[index % 7])
    }

    /// The semitone offsets of the key's mode from its tonic.
    pub fn offsets(&self) -> (r: [u8; 7])
        ensures
            forall|d: int| 0 <= d < 7 ==> r@[d] == mode_offset(self.0, d),
    {
        if self.0 {
            [0, 2, 4, 5, 7, 9, 11]
        } else {
            [0, 2, 3, 5, 7, 8, 10]
        }
    }

    /// The diatonic triad on a degree: the degree, the third above and the
    /// fifth above, all within the key's scale.
    pub fn build_chord(&self, tonic: u8) -> (r: Chord)
        ensures
            r.0@.len() == 3,
            forall|k: int|
                0 <= k < 3 ==> (#[trigger] r.0@[k]).pc() == self.degree_pc(tonic + 2 * k),
    {
        let index = tonic as usize;
        let scale = self.scale();
        let r = Chord(vec![scale[index % 7], scale[(index + 2) % 7], scale[(index + 4) % 7]]);
        assert(r.0@[0].pc() == self.degree_pc(tonic + 2 * 0));
        assert(r.0@[1].pc() == self.degree_pc(tonic + 2 * 1));
        assert(r.0@[2].pc() == self.degree_pc(tonic + 2 * 2));
        r
    }

    /// The absolute pitch of a degree (taken modulo 7) in the octave of
    /// the tonic's octave-4 pitch.
    pub open spec fn degree_pitch(self, d: int) -> int {
        self.1.midi_spec() + mode_offset(self.0, d % 7)
    }

    /// A triad of the given quality on a scale degree, voiced by the
    /// inversion: absolute pitches, lowest first, strictly ascending.
    pub fn chord(&self, root_degree: u8, chord_type: ChordType, inversion: Inversion) -> (r: [u8; 3])
        ensures
            r[0] < r[1] < r[2],
            r[0] == voiced(self.degree_pitch(root_degree as int), chord_type, inversion)[0],
            r[1] == voiced(self.degree_pitch(root_degree as int), chord_type, inversion)[1],
            r[2] == voiced(self.degree_pitch(root_degree as int), chord_type, inversion)[2],
    {
        let offsets = self.offsets();
        let root = self.1.midi() + offsets[(root_degree % 7) as usize];
        let third = root + chord_type.third();
        let fifth = root + chord_type.fifth();
        let r = match inversion {
            Inversion::Normal => [root, third, fifth],
            Inversion::First => [third, fifth, root + 12],
            Inversion::Second => [fifth, root + 12, third + 12],
        };
        r
    }
}

/// The chords of one phrase, one per measure.
#[derive(Clone, Debug)]
pub struct Phrase {
    pub harmony: Vec<Chord>,
}

/// The harmonic skeleton of a piece.
#[derive(Clone, Debug)]
pub struct Piece {
    pub bpm: u16,
    pub beats_per_measure: u16,
    pub key: Key,
    pub phrases: Vec<Phrase>,
}

} // verus!
