//! Voicings of a piece's harmony: a melody that moves to the nearest chord
//! tone, and sustained triads.

use vstd::prelude::*;

use crate::error::ConfigError;
use crate::music::{Chord, Phrase, Piece};
use crate::rhythm::{lemma_total_concat, lemma_total_nonneg, total};
use crate::rng::gen_index;
use crate::tone::{micros_of, ticks_to_micros, Tone, MAX_TICKS};

verus! {

/// How a line is voiced, with its register `(lowest, highest)`.
pub enum Voicing {
    Melody((u8, u8)),
    Chords((u8, u8)),
}

impl Voicing {
    pub open spec fn range(self) -> (u8, u8) {
        match self {
            Voicing::Melody(r) => r,
            Voicing::Chords(r) => r,
        }
    }

    /// The register `(lowest, highest)` of the voicing.
    pub fn register(&self) -> (r: (u8, u8))
        ensures
            r == self.range(),
    {
        match self {
            Voicing::Melody(r) => *r,
            Voicing::Chords(r) => *r,
        }
    }
}

pub open spec fn dist(a: int, b: int) -> int {
    if a >= b {
        a - b
    } else {
        b - a
    }
}

/// `r` is the candidate to move to from `prev` (see [`closest_option`]).
pub open spec fn is_closest(prev: u8, options: Seq<u8>, r: u8) -> bool {
    &&& options.contains(r)
    &&& (exists|i: int| 0 <= i < options.len() && options[i] != prev) ==> r != prev && (forall|i: int|
        0 <= i < options.len() && options[i] != prev ==> dist(prev as int, r as int) <= dist(
            prev as int,
            #[trigger] options[i] as int,
        ))
    &&& (forall|i: int| 0 <= i < options.len() ==> options[i] == prev) ==> r == prev
    &&& exists|k: int|
        0 <= k < options.len() && options[k] == r && (forall|j: int|
            0 <= j < k && options[j] != prev ==> dist(prev as int, #[trigger] options[j] as int) > dist(
                prev as int,
                r as int,
            ))
}

/// The line led through lists of candidates: the first candidate of the
/// first list, then from each list the candidate [`closest_option`] picks
/// after the previous pitch.
pub open spec fn leads(options: Seq<Seq<u8>>, r: Seq<u8>) -> bool {
    &&& r.len() == options.len()
    &&& r.len() > 0 ==> r[0] == options[0][0]
    &&& forall|k: int| 0 < k < r.len() ==> is_closest(r[k - 1], options[k], #[trigger] r[k])
}

/// The pitches of a line led through candidate lists (see [`leads`]).
pub fn lead_voice(options: &Vec<Vec<u8>>) -> (r: Vec<u8>)
    requires
        forall|k: int| 0 <= k < options@.len() ==> (#[trigger] options@[k])@.len() > 0,
    ensures
        leads(options@.map_values(|o: Vec<u8>| o@), r@),
{
    let ghost opts = options@.map_values(|o: Vec<u8>| o@);
    let mut r: Vec<u8> = Vec::new();
    let mut k: usize = 0;
    while k < options.len()
        invariant
            k <= options@.len(),
            opts == options@.map_values(|o: Vec<u8>| o@),
            forall|j: int| 0 <= j < options@.len() ==> (#[trigger] options@[j])@.len() > 0,
            r@.len() == k,
            k > 0 ==> r@[0] == opts[0][0],
            forall|j: int| 0 < j < k ==> is_closest(r@[j - 1], opts[j], #[trigger] r@[j]),
        decreases options@.len() - k,
    {
        assert(opts[k as int] == options@[k as int]@);
        let p = if k == 0 {
            options[0][0]
        } else {
            closest_option(r[k - 1], &options[k])
        };
        r.push(p);
        k = k + 1;
    }
    r
}

/// The candidate to move to from `prev`: the nearest one that is not a
/// repeat of `prev`, the earliest among equally near ones; `prev` itself
/// only when every candidate repeats it.
pub fn closest_option(prev: u8, options: &Vec<u8>) -> (r: u8)
    requires
        options@.len() > 0,
    ensures
        options@.contains(r),
        (exists|i: int| 0 <= i < options@.len() && options@[i] != prev) ==> r != prev && (forall|
            i: int,
        |
            0 <= i < options@.len() && options@[i] != prev ==> dist(prev as int, r as int) <= dist(
                prev as int,
                #[trigger] options@[i] as int,
            )),
        (forall|i: int| 0 <= i < options@.len() ==> options@[i] == prev) ==> r == prev,
        exists|k: int|
            0 <= k < options@.len() && options@[k] == r && (forall|j: int|
                0 <= j < k && options@[j] != prev ==> dist(prev as int, #[trigger] options@[j] as int)
                    > dist(prev as int, r as int)),
        is_closest(prev, options@, r),
{
    let mut best = options[0];
    let mut best_k: usize = 0;
    let mut best_dist: u16 = 256;
    let mut found = false;
    let mut k: usize = 0;
    while k < options.len()
        invariant
            k <= options@.len(),
            options@.len() > 0,
            best_k < options@.len(),
            options@[best_k as int] == best,
            found <==> exists|i: int| 0 <= i < k && options@[i] != prev,
            !found ==> best_k == 0,
            found ==> best != prev && best_dist == dist(prev as int, best as int),
            !found ==> best_dist == 256,
            forall|i: int|
                0 <= i < k && options@[i] != prev ==> dist(prev as int, #[trigger] options@[i] as int)
                    >= best_dist,
            forall|j: int|
                0 <= j < best_k && options@[j] != prev ==> dist(prev as int, #[trigger] options@[j] as int)
                    > best_dist,
        decreases options@.len() - k,
    {
        let opt = options[k];
        let d: u16 = if prev >= opt {
            (prev - opt) as u16
        } else {
            (opt - prev) as u16
        };
        if d < best_dist && d > 0 {
            best = opt;
            best_k = k;
            best_dist = d;
            found = true;
        }
        k = k + 1;
    }
    assert(options@[best_k as int] == best);
    best
}

/// `pitch` is one of the chord's classes.
pub open spec fn chord_has(c: Chord, pitch: int) -> bool {
    exists|i: int| 0 <= i < c.0@.len() && (#[trigger] c.0@[i]).pc() == pitch % 12
}

/// Every chord of the phrase has at least three tones.
pub open spec fn phrase_wf(ph: Phrase) -> bool {
    forall|c: int| 0 <= c < ph.harmony@.len() ==> (#[trigger] ph.harmony@[c]).0@.len() >= 3
}

/// `pitch` belongs to one of the phrase's chords.
pub open spec fn phrase_has(ph: Phrase, pitch: int) -> bool {
    exists|c: int| 0 <= c < ph.harmony@.len() && chord_has(#[trigger] ph.harmony@[c], pitch)
}

/// `pitch` belongs to one of the piece's chords.
pub open spec fn piece_has(p: Piece, pitch: int) -> bool {
    exists|i: int| 0 <= i < p.phrases@.len() && phrase_has(#[trigger] p.phrases@[i], pitch)
}

/// The number of measures (chords) of a list of phrases.
pub open spec fn measures(phs: Seq<Phrase>) -> int
    decreases phs.len(),
{
    if phs.len() == 0 {
        0
    } else {
        measures(phs.drop_last()) + phs.last().harmony@.len()
    }
}

/// Ticks in one measure of the piece.
pub open spec fn measure_ticks(p: Piece) -> int {
    p.beats_per_measure * 480
}

/// A piece can be voiced: a positive tempo and measure length, chords of
/// at least three tones, and a length whose tick count stays in range.
pub open spec fn piece_wf(p: Piece) -> bool {
    &&& p.bpm > 0
    &&& p.beats_per_measure > 0
    &&& forall|i: int| 0 <= i < p.phrases@.len() ==> phrase_wf(#[trigger] p.phrases@[i])
    &&& measures(p.phrases@) * measure_ticks(p) + 1920 <= MAX_TICKS
}

/// The error a register is rejected with, if any: inverted bounds, or
/// edges whose octave transpositions leave the MIDI byte range.
pub open spec fn register_error(range: (u8, u8)) -> Option<ConfigError> {
    if range.0 > range.1 {
        Some(ConfigError::InvertedRegister)
    } else if range.0 > 244 || range.1 < 11 {
        Some(ConfigError::RegisterOutOfRange)
    } else {
        None
    }
}

/// Rejects a register that cannot be voiced (see [`register_error`]).
pub fn check_register(range: (u8, u8)) -> (r: Result<(), ConfigError>)
    ensures
        r is Ok <==> register_error(range) is None,
        r matches Err(e) ==> register_error(range) == Some(e),
{
    if range.0 > range.1 {
        Err(ConfigError::InvertedRegister)
    } else if range.0 > 244 || range.1 < 11 {
        Err(ConfigError::RegisterOutOfRange)
    } else {
        Ok(())
    }
}

/// The error a piece that is not well formed is rejected with: a zero
/// tempo, then a zero-length measure, then a chord of fewer than three
/// tones, then a length the tick clock cannot hold.
pub open spec fn piece_error(p: Piece) -> ConfigError {
    if p.bpm == 0 {
        ConfigError::ZeroTempo
    } else if p.beats_per_measure == 0 {
        ConfigError::ZeroLengthMeasure
    } else if !(forall|i: int| 0 <= i < p.phrases@.len() ==> phrase_wf(#[trigger] p.phrases@[i])) {
        ConfigError::ChordTooSmall
    } else {
        ConfigError::PieceTooLong
    }
}

/// Accepts exactly the pieces that can be voiced (see [`piece_wf`]).
pub fn check_piece(piece: &Piece) -> (r: Result<(), ConfigError>)
    ensures
        r is Ok <==> piece_wf(*piece),
        r matches Err(e) ==> e == piece_error(*piece),
{
    if piece.bpm == 0 {
        return Err(ConfigError::ZeroTempo);
    }
    if piece.beats_per_measure == 0 {
        return Err(ConfigError::ZeroLengthMeasure);
    }
    let mut i: usize = 0;
    while i < piece.phrases.len()
        invariant
            i <= piece.phrases@.len(),
            piece.bpm != 0,
            piece.beats_per_measure != 0,
            forall|j: int| 0 <= j < i ==> phrase_wf(#[trigger] piece.phrases@[j]),
        decreases piece.phrases@.len() - i,
    {
        let harmony = &piece.phrases[i].harmony;
        let mut c: usize = 0;
        while c < harmony.len()
            invariant
                i < piece.phrases@.len(),
                piece.bpm != 0,
                piece.beats_per_measure != 0,
                c <= harmony@.len(),
                *harmony == piece.phrases@[i as int].harmony,
                forall|k: int| 0 <= k < c ==> (#[trigger] harmony@[k]).0@.len() >= 3,
            decreases harmony@.len() - c,
        {
            if harmony[c].0.len() < 3 {
                assert(!phrase_wf(piece.phrases@[i as int]));
                assert(!(forall|j: int|
                    0 <= j < piece.phrases@.len() ==> phrase_wf(#[trigger] piece.phrases@[j])));
                assert(piece_error(*piece) == ConfigError::ChordTooSmall);
                return Err(ConfigError::ChordTooSmall);
            }
            c = c + 1;
        }
        i = i + 1;
    }
    let mut total: u64 = 0;
    let mut too_long = false;
    i = 0;
    while i < piece.phrases.len()
        invariant
            i <= piece.phrases@.len(),
            piece.bpm != 0,
            piece.beats_per_measure != 0,
            forall|j: int| 0 <= j < piece.phrases@.len() ==> phrase_wf(#[trigger] piece.phrases@[j]),
            !too_long ==> total == measures(piece.phrases@.subrange(0, i as int)) && total <= MAX_TICKS,
            too_long ==> measures(piece.phrases@.subrange(0, i as int)) > MAX_TICKS,
        decreases piece.phrases@.len() - i,
    {
        proof {
            lemma_measures_prefix(piece.phrases@, i as int + 1);
        }
        let n = piece.phrases[i].harmony.len() as u64;
        if !too_long {
            if n > MAX_TICKS - total {
                too_long = true;
            } else {
                total = total + n;
            }
        }
        i = i + 1;
    }
    assert(piece.phrases@.subrange(0, piece.phrases@.len() as int) =~= piece.phrases@);
    if too_long {
        assert(measures(piece.phrases@) * measure_ticks(*piece) > MAX_TICKS) by (nonlinear_arith)
            requires measures(piece.phrases@) > MAX_TICKS, measure_ticks(*piece) >= 480;
        return Err(ConfigError::PieceTooLong);
    }
    let m: u64 = piece.beats_per_measure as u64 * 480;
    assert(total * m <= 100_000_000_000 * (65535 * 480)) by (nonlinear_arith)
        requires total <= 100_000_000_000, m <= 65535 * 480;
    if total * m + 1920 > MAX_TICKS {
        return Err(ConfigError::PieceTooLong);
    }
    Ok(())
}

/// What every tone of a line over the register `range` satisfies: a chord
/// tone of the piece, inside the register when it spans an octave, at full
/// velocity.
pub open spec fn line_tone(p: Piece, range: (u8, u8), t: Tone) -> bool {
    &&& piece_has(p, t.pitch as int)
    &&& range.1 - range.0 >= 11 ==> range.0 <= t.pitch <= range.1
    &&& t.velocity == 127
}

/// All chords of a list of phrases, in order.
pub open spec fn all_chords(phs: Seq<Phrase>) -> Seq<Chord>
    decreases phs.len(),
{
    if phs.len() == 0 {
        Seq::empty()
    } else {
        all_chords(phs.drop_last()) + phs.last().harmony@
    }
}

proof fn lemma_all_chords_len(phs: Seq<Phrase>)
    ensures
        all_chords(phs).len() == measures(phs),
    decreases phs.len(),
{
    if phs.len() > 0 {
        lemma_all_chords_len(phs.drop_last());
    }
}

/// The tone lists of several chords, one after the other.
pub open spec fn flat(parts: Seq<Seq<Tone>>) -> Seq<Tone>
    decreases parts.len(),
{
    if parts.len() == 0 {
        Seq::empty()
    } else {
        flat(parts.drop_last()) + parts.last()
    }
}

proof fn lemma_flat_concat(a: Seq<Seq<Tone>>, b: Seq<Seq<Tone>>)
    ensures
        flat(a + b) == flat(a) + flat(b),
    decreases b.len(),
{
    if b.len() == 0 {
        assert(a + b =~= a);
        assert(flat(a) + flat(b) =~= flat(a));
    } else {
        assert((a + b).drop_last() =~= a + b.drop_last());
        lemma_flat_concat(a, b.drop_last());
        assert(flat(a) + flat(b.drop_last()) + b.last() =~= flat(a) + (flat(b.drop_last()) + b.last()));
    }
}

/// The rhythm cells of a melody measure, in quarters of the measure.
pub open spec fn measure_cells() -> Seq<Seq<u64>> {
    seq![seq![4u64], seq![2u64, 2], seq![3u64, 1], seq![1u64, 3], seq![1u64, 1, 2], seq![2u64, 1, 1], seq![1u64, 1, 1, 1]]
}

/// The tones voiced over one chord starting at tick `start`: for chords,
/// its three tones (in order) held for the measure; for a melody, one
/// tone per cell of one of the measure's rhythm cells, at the cell's
/// onsets and for its lengths, led by the nearest-candidate rule
/// (see [`melody_led`]).
pub open spec fn part_ok(p: Piece, chords: bool, chord: Chord, start: int, part: Seq<Tone>) -> bool {
    if chords {
        &&& part.len() == 3
        &&& forall|k: int|
            0 <= k < 3 ==> (#[trigger] part[k]).start_time == micros_of(start, p.bpm as int) && part[k].duration
                == micros_of(measure_ticks(p), p.bpm as int) && part[k].pitch % 12 == chord.0@[k].pc()
    } else {
        &&& exists|cell: int| 0 <= cell < 7 && #[trigger] cell_tones(p, measure_cells()[cell], start, part)
        &&& melody_led(chord, part)
    }
}

/// The tones follow the rhythm cell `cell` from tick `start`.
pub open spec fn cell_tones(p: Piece, cell: Seq<u64>, start: int, part: Seq<Tone>) -> bool {
    &&& part.len() == cell.len()
    &&& forall|k: int|
        0 <= k < part.len() ==> (#[trigger] part[k]).start_time == micros_of(cell_onset(start, cell, k, p), p.bpm as int)
            && part[k].duration == micros_of(cell[k] * p.beats_per_measure * 120, p.bpm as int)
}

/// `parts` voice `chords` one by one, measure after measure from `start`.
pub open spec fn line_parts(p: Piece, is_chords: bool, chords: Seq<Chord>, parts: Seq<Seq<Tone>>, start: int) -> bool {
    &&& parts.len() == chords.len()
    &&& forall|c: int|
        0 <= c < parts.len() ==> part_ok(p, is_chords, chords[c], start + c * measure_ticks(p), #[trigger] parts[c])
}

impl Voicing {
    pub open spec fn is_chords(self) -> bool {
        self is Chords
    }
}

/// The tones of a whole piece for one voice, chord after chord; a piece
/// or register that cannot be voiced is rejected.
pub fn generate_line(rng: &mut rand::rngs::StdRng, piece: &Piece, voicing: Voicing) -> (r: Result<Vec<Tone>, ConfigError>)
    ensures
        r is Ok <==> register_error(voicing.range()) is None && piece_wf(*piece),
        r matches Err(e) ==> e == match register_error(voicing.range()) {
            Some(x) => x,
            None => piece_error(*piece),
        },
        r matches Ok(tones) ==> forall|k: int|
            0 <= k < tones@.len() ==> line_tone(*piece, voicing.range(), #[trigger] tones@[k]),
        r matches Ok(tones) ==> exists|parts: Seq<Seq<Tone>>|
            line_parts(*piece, voicing.is_chords(), all_chords(piece.phrases@), parts, 0) && tones@ == #[trigger] flat(parts),
{
    if let Err(e) = check_register(voicing.register()) {
        return Err(e);
    }
    if let Err(e) = check_piece(piece) {
        return Err(e);
    }
    Ok(line_tones(rng, piece, voicing))
}

fn line_tones(rng: &mut rand::rngs::StdRng, piece: &Piece, voicing: Voicing) -> (r: Vec<Tone>)
    requires
        piece_wf(*piece),
        voicing.range().0 <= 244,
        voicing.range().0 <= voicing.range().1,
        voicing.range().1 >= 11,
    ensures
        forall|k: int| 0 <= k < r@.len() ==> line_tone(*piece, voicing.range(), #[trigger] r@[k]),
        exists|parts: Seq<Seq<Tone>>|
            line_parts(*piece, voicing.is_chords(), all_chords(piece.phrases@), parts, 0) && r@ == #[trigger] flat(parts),
{
    let mut passed_ticks: u64 = 0;
    let mut r: Vec<Tone> = Vec::new();
    let mut i: usize = 0;
    let ghost mut all_parts: Seq<Seq<Tone>> = Seq::empty();
    let ghost flag = voicing.is_chords();
    assert(piece.phrases@.subrange(0, 0) =~= Seq::<Phrase>::empty());
    while i < piece.phrases.len()
        invariant
            flag == voicing.is_chords(),
            line_parts(*piece, flag, all_chords(piece.phrases@.subrange(0, i as int)), all_parts, 0),
            r@ == flat(all_parts),
            i <= piece.phrases@.len(),
            piece_wf(*piece),
            voicing.range().0 <= 244,
            voicing.range().0 <= voicing.range().1,
            voicing.range().1 >= 11,
            passed_ticks == measures(piece.phrases@.subrange(0, i as int)) * measure_ticks(*piece),
            forall|k: int| 0 <= k < r@.len() ==> line_tone(*piece, voicing.range(), #[trigger] r@[k]),
        decreases piece.phrases@.len() - i,
    {
        proof {
            lemma_measures_prefix(piece.phrases@, i as int + 1);
            assert(piece.phrases@.subrange(0, i as int + 1).drop_last() =~= piece.phrases@.subrange(
                0,
                i as int,
            ));
            assert(measures(piece.phrases@.subrange(0, i as int + 1)) * measure_ticks(*piece)
                <= measures(piece.phrases@) * measure_ticks(*piece)) by (nonlinear_arith)
                requires
                    measures(piece.phrases@.subrange(0, i as int + 1)) <= measures(piece.phrases@),
                    measure_ticks(*piece) >= 0;
            assert(phrase_wf(piece.phrases@[i as int]));
            let a = measures(piece.phrases@.subrange(0, i as int));
            let b = piece.phrases@[i as int].harmony@.len() as int;
            let m = measure_ticks(*piece);
            assert((a + b) * m == a * m + b * m) by (nonlinear_arith);
        }
        let ghost pt = passed_ticks as int;
        let tones = generate_phrase_line(rng, piece, &piece.phrases[i], &voicing, &mut passed_ticks);
        proof {
            let ph = piece.phrases@[i as int];
            let parts = choose|parts: Seq<Seq<Tone>>|
                line_parts(*piece, flag, ph.harmony@, parts, pt) && tones@ == #[trigger] flat(parts);
            let pre = piece.phrases@.subrange(0, i as int);
            let a = all_chords(pre);
            lemma_all_chords_len(pre);
            assert(piece.phrases@.subrange(0, i as int + 1).drop_last() =~= pre);
            assert(all_chords(piece.phrases@.subrange(0, i as int + 1)) == a + ph.harmony@);
            lemma_flat_concat(all_parts, parts);
            let m = measure_ticks(*piece);
            assert forall|c: int| 0 <= c < (all_parts + parts).len() implies part_ok(
                *piece,
                flag,
                (a + ph.harmony@)[c],
                0 + c * m,
                #[trigger] (all_parts + parts)[c],
            ) by {
                if c < all_parts.len() {
                    assert((all_parts + parts)[c] == all_parts[c]);
                    assert(part_ok(*piece, flag, a[c], 0 + c * m, all_parts[c]));
                } else {
                    let d = c - all_parts.len();
                    assert((all_parts + parts)[c] == parts[d]);
                    assert(part_ok(*piece, flag, ph.harmony@[d], pt + d * m, parts[d]));
                    assert(pt + d * m == c * m) by (nonlinear_arith)
                        requires pt == a.len() * m, c == a.len() + d;
                }
            }
            all_parts = all_parts + parts;
        }
        let ghost before = r@;
        let mut j: usize = 0;
        while j < tones.len()
            invariant
                j <= tones@.len(),
                i < piece.phrases@.len(),
                r@.len() == before.len() + j,
                forall|k: int| 0 <= k < before.len() ==> r@[k] == before[k],
                forall|k: int| 0 <= k < j ==> r@[before.len() + k] == tones@[k],
                forall|k: int| 0 <= k < before.len() ==> line_tone(*piece, voicing.range(), #[trigger] before[k]),
                forall|k: int|
                    0 <= k < tones@.len() ==> phrase_has(piece.phrases@[i as int], (#[trigger] tones@[k]).pitch as int)
                        && (voicing.range().1 - voicing.range().0 >= 11 ==> voicing.range().0
                        <= tones@[k].pitch <= voicing.range().1) && tones@[k].velocity == 127,
            decreases tones@.len() - j,
        {
            r.push(tones[j]);
            j = j + 1;
        }
        assert forall|k: int| 0 <= k < r@.len() implies line_tone(*piece, voicing.range(), #[trigger] r@[k]) by {
            if k >= before.len() {
                let t = tones@[k - before.len()];
                assert(r@[k] == t);
                assert(phrase_has(piece.phrases@[i as int], t.pitch as int));
            } else {
                assert(r@[k] == before[k]);
            }
        }
        assert(r@ =~= before + tones@);
        i = i + 1;
    }
    assert(piece.phrases@.subrange(0, piece.phrases@.len() as int) =~= piece.phrases@);
    r
}

/// Measures of a prefix: one phrase more adds that phrase's chords, and a
/// prefix never has more than the whole.
pub proof fn lemma_measures_prefix(phs: Seq<Phrase>, n: int)
    requires
        0 <= n <= phs.len(),
    ensures
        measures(phs.subrange(0, n)) <= measures(phs),
        n > 0 ==> measures(phs.subrange(0, n)) == measures(phs.subrange(0, n - 1)) + phs[n
            - 1].harmony@.len(),
    decreases phs.len() - n,
{
    if n > 0 {
        assert(phs.subrange(0, n).drop_last() =~= phs.subrange(0, n - 1));
    }
    if n < phs.len() {
        lemma_measures_prefix(phs, n + 1);
        assert(phs.subrange(0, n + 1).drop_last() =~= phs.subrange(0, n));
    } else {
        assert(phs.subrange(0, n) =~= phs);
    }
}

/// The tones of one phrase, chord after chord; `ticks_passed` advances by
/// one measure per chord.
fn generate_phrase_line(
    rng: &mut rand::rngs::StdRng,
    piece: &Piece,
    phrase: &Phrase,
    voicing: &Voicing,
    ticks_passed: &mut u64,
) -> (r: Vec<Tone>)
    requires
        piece.bpm > 0,
        piece.beats_per_measure > 0,
        phrase_wf(*phrase),
        voicing.range().0 <= 244,
        voicing.range().0 <= voicing.range().1,
        voicing.range().1 >= 11,
        *old(ticks_passed) + phrase.harmony@.len() * measure_ticks(*piece) <= MAX_TICKS,
    ensures
        *final(ticks_passed) == *old(ticks_passed) + phrase.harmony@.len() * measure_ticks(*piece),
        forall|k: int|
            0 <= k < r@.len() ==> phrase_has(*phrase, (#[trigger] r@[k]).pitch as int) && (
            voicing.range().1 - voicing.range().0 >= 11 ==> voicing.range().0 <= r@[k].pitch
                <= voicing.range().1) && r@[k].velocity == 127,
        exists|parts: Seq<Seq<Tone>>|
            line_parts(*piece, voicing.is_chords(), phrase.harmony@, parts, *old(ticks_passed) as int) && r@
                == #[trigger] flat(parts),
{
    let mut r: Vec<Tone> = Vec::new();
    let ghost mut parts: Seq<Seq<Tone>> = Seq::empty();
    let mut c: usize = 0;
    let ghost start = *old(ticks_passed);
    let ghost range = voicing.range();
    while c < phrase.harmony.len()
        invariant
            c <= phrase.harmony@.len(),
            piece.bpm > 0,
            piece.beats_per_measure > 0,
            phrase_wf(*phrase),
            range == voicing.range(),
            range.0 <= 244,
            range.0 <= range.1,
            range.1 >= 11,
            start + phrase.harmony@.len() * measure_ticks(*piece) <= MAX_TICKS,
            *ticks_passed == start + c * measure_ticks(*piece),
            parts.len() == c,
            line_parts(*piece, voicing.is_chords(), phrase.harmony@.subrange(0, c as int), parts, start as int),
            r@ == flat(parts),
            forall|k: int|
                0 <= k < r@.len() ==> phrase_has(*phrase, (#[trigger] r@[k]).pitch as int) && (
                range.1 - range.0 >= 11 ==> range.0 <= r@[k].pitch <= range.1) && r@[k].velocity
                    == 127,
        decreases phrase.harmony@.len() - c,
    {
        let chord = &phrase.harmony[c];
        assert(chord.0@.len() >= 3);
        assert((c + 1) * measure_ticks(*piece) <= phrase.harmony@.len() * measure_ticks(*piece))
            by (nonlinear_arith)
            requires c + 1 <= phrase.harmony@.len(), measure_ticks(*piece) >= 0;
        assert((c + 1) * measure_ticks(*piece) == c * measure_ticks(*piece) + measure_ticks(*piece))
            by (nonlinear_arith);
        let ghost at = *ticks_passed as int;
        let tones = match voicing {
            Voicing::Melody(range) => generate_melody_over_chord(rng, piece, chord, ticks_passed, range),
            Voicing::Chords(range) => generate_chord_notes(rng, piece, chord, ticks_passed, range),
        };
        assert(part_ok(*piece, voicing.is_chords(), *chord, at, tones@));
        let ghost before = r@;
        let mut j: usize = 0;
        while j < tones.len()
            invariant
                j <= tones@.len(),
                c < phrase.harmony@.len(),
                r@.len() == before.len() + j,
                forall|k: int| 0 <= k < before.len() ==> r@[k] == before[k],
                forall|k: int| 0 <= k < j ==> r@[before.len() + k] == tones@[k],
                forall|k: int|
                    0 <= k < before.len() ==> phrase_has(*phrase, (#[trigger] before[k]).pitch as int) && (
                    range.1 - range.0 >= 11 ==> range.0 <= before[k].pitch <= range.1)
                        && before[k].velocity == 127,
                forall|k: int|
                    0 <= k < tones@.len() ==> chord_has(phrase.harmony@[c as int], (#[trigger] tones@[k]).pitch as int)
                        && (range.1 - range.0 >= 11 ==> range.0 <= tones@[k].pitch <= range.1)
                        && tones@[k].velocity == 127,
            decreases tones@.len() - j,
        {
            r.push(tones[j]);
            j = j + 1;
        }
        assert forall|k: int| 0 <= k < r@.len() implies phrase_has(*phrase, (#[trigger] r@[k]).pitch as int) && (
            range.1 - range.0 >= 11 ==> range.0 <= r@[k].pitch <= range.1) && r@[k].velocity == 127 by {
            if k >= before.len() {
                let t = tones@[k - before.len()];
                assert(r@[k] == t);
                assert(chord_has(phrase.harmony@[c as int], t.pitch as int));
            } else {
                assert(r@[k] == before[k]);
            }
        }
        proof {
            let old_parts = parts;
            parts = parts.push(tones@);
            assert(r@ =~= flat(old_parts) + tones@);
            assert(parts.drop_last() =~= old_parts);
            assert forall|d: int| 0 <= d < parts.len() implies part_ok(
                *piece,
                voicing.is_chords(),
                phrase.harmony@.subrange(0, c as int + 1)[d],
                start as int + d * measure_ticks(*piece),
                #[trigger] parts[d],
            ) by {
                if d < c {
                    assert(parts[d] == old_parts[d]);
                    assert(phrase.harmony@.subrange(0, c as int + 1)[d] == phrase.harmony@.subrange(0, c as int)[d]);
                }
            }
        }
        c = c + 1;
        assert(*ticks_passed == start + c * measure_ticks(*piece)) by (nonlinear_arith)
            requires
                *ticks_passed == start + (c - 1) * measure_ticks(*piece) + measure_ticks(*piece);
    }
    assert(phrase.harmony@.subrange(0, phrase.harmony@.len() as int) =~= phrase.harmony@);
    r
}

/// The rhythm cells of a measure, in quarters of the measure.
fn measure_patterns() -> (r: Vec<Vec<u64>>)
    ensures
        r@.len() == 7,
        forall|i: int| 0 <= i < r@.len() ==> total(#[trigger] r@[i]@) == 4 && r@[i]@ == measure_cells()[i],
{
    let r = vec![
        vec![4],
        vec![2, 2],
        vec![3, 1],
        vec![1, 3],
        vec![1, 1, 2],
        vec![2, 1, 1],
        vec![1, 1, 1, 1],
    ];
    assert(r@.map_values(|v: Vec<u64>| v@) =~~= measure_cells());
    assert forall|i: int| 0 <= i < r@.len() implies total(#[trigger] r@[i]@) == 4 && r@[i]@ == measure_cells()[i] by {
        assert(r@.map_values(|v: Vec<u64>| v@)[i] == r@[i]@);
        reveal_with_fuel(total, 5);
    }
    r
}

/// A melody over one chord on a rhythm cell picked at random.
fn generate_melody_over_chord(
    rng: &mut rand::rngs::StdRng,
    piece: &Piece,
    chord: &Chord,
    ticks_passed: &mut u64,
    range: &(u8, u8),
) -> (r: Vec<Tone>)
    requires
        piece.bpm > 0,
        chord.0@.len() > 0,
        range.0 <= 244,
        range.0 <= range.1,
        range.1 >= 11,
        *old(ticks_passed) + measure_ticks(*piece) <= MAX_TICKS,
    ensures
        *final(ticks_passed) == *old(ticks_passed) + measure_ticks(*piece),
        part_ok(*piece, false, *chord, *old(ticks_passed) as int, r@),
        forall|k: int|
            0 <= k < r@.len() ==> chord_has(*chord, (#[trigger] r@[k]).pitch as int) && (range.1
                - range.0 >= 11 ==> range.0 <= r@[k].pitch <= range.1) && r@[k].velocity == 127,
{
    let patterns = measure_patterns();
    let i = gen_index(rng, patterns.len());
    assert(total(patterns@[i as int]@) == 4);
    let ghost start = *ticks_passed as int;
    let r = pattern_melody(rng, &patterns[i], piece, chord, ticks_passed, range);
    assert(cell_tones(*piece, measure_cells()[i as int], start, r@));
    r
}

/// A drawn candidate: a chord tone, inside the register when it spans an
/// octave.
pub open spec fn candidate(chord: Chord, range: (u8, u8), c: u8) -> bool {
    chord_has(chord, c as int) && (range.1 - range.0 >= 11 ==> range.0 <= c <= range.1)
}

/// The pitches of a list of tones, as bytes.
pub open spec fn pitches_of(tones: Seq<Tone>) -> Seq<u8> {
    tones.map_values(|t: Tone| t.pitch as u8)
}

/// The tones are led through five chord-tone candidates each (see
/// [`leads`]): the first takes its first candidate, each next one the
/// nearest non-repeating candidate to the previous pitch.
pub open spec fn melody_led(chord: Chord, tones: Seq<Tone>) -> bool {
    exists|cands: Seq<Seq<u8>>|
        cands.len() == tones.len() && (forall|k: int|
            0 <= k < cands.len() ==> (#[trigger] cands[k]).len() == 5 && forall|q: int|
                0 <= q < 5 ==> chord_has(chord, cands[k][q] as int)) && #[trigger] leads(cands, pitches_of(tones))
}

/// Onset, in ticks, of the `k`-th cell of a pattern given in quarters of a
/// measure, from `start`.
pub open spec fn cell_onset(start: int, pattern: Seq<u64>, k: int, p: Piece) -> int {
    start + total(pattern.subrange(0, k)) * p.beats_per_measure * 120
}

/// Draws for each cell of the pattern five chord tones in the register and
/// keeps the one nearest to the previous pitch (see [`closest_option`]);
/// the first cell keeps its first draw.
fn pattern_melody(
    rng: &mut rand::rngs::StdRng,
    pattern: &Vec<u64>,
    piece: &Piece,
    chord: &Chord,
    ticks_passed: &mut u64,
    range: &(u8, u8),
) -> (r: Vec<Tone>)
    requires
        piece.bpm > 0,
        chord.0@.len() > 0,
        range.0 <= 244,
        range.0 <= range.1,
        range.1 >= 11,
        total(pattern@) == 4,
        *old(ticks_passed) + measure_ticks(*piece) <= MAX_TICKS,
    ensures
        *final(ticks_passed) == *old(ticks_passed) + measure_ticks(*piece),
        r@.len() == pattern@.len(),
        forall|k: int|
            0 <= k < r@.len() ==> (#[trigger] r@[k]).start_time == micros_of(
                cell_onset(*old(ticks_passed) as int, pattern@, k, *piece),
                piece.bpm as int,
            ) && r@[k].duration == micros_of(
                pattern@[k] * piece.beats_per_measure * 120,
                piece.bpm as int,
            ),
        forall|k: int|
            0 <= k < r@.len() ==> chord_has(*chord, (#[trigger] r@[k]).pitch as int) && (range.1
                - range.0 >= 11 ==> range.0 <= r@[k].pitch <= range.1) && r@[k].velocity == 127,
        melody_led(*chord, r@),
{
    let mut options: Vec<Vec<u8>> = Vec::new();
    let mut c: usize = 0;
    while c < pattern.len()
        invariant
            c <= pattern@.len(),
            options@.len() == c,
            chord.0@.len() > 0,
            range.0 <= 244,
            range.0 <= range.1,
            range.1 >= 11,
            forall|j: int|
                0 <= j < c ==> (#[trigger] options@[j])@.len() == 5 && forall|q: int|
                    0 <= q < 5 ==> candidate(*chord, *range, options@[j]@[q]),
        decreases pattern@.len() - c,
    {
        let mut draws: Vec<u8> = Vec::new();
        let mut n: usize = 0;
        while n < 5
            invariant
                n <= 5,
                draws@.len() == n,
                chord.0@.len() > 0,
                range.0 <= 244,
                range.0 <= range.1,
                range.1 >= 11,
                forall|q: int| 0 <= q < n ==> candidate(*chord, *range, #[trigger] draws@[q]),
            decreases 5 - n,
        {
            let o = chord.rand_from_range(rng, range);
            draws.push(o);
            n = n + 1;
        }
        options.push(draws);
        c = c + 1;
    }
    let ghost opts = options@.map_values(|o: Vec<u8>| o@);
    let pitches = lead_voice(&options);
    assert forall|k: int| 0 <= k < pitches@.len() implies candidate(*chord, *range, #[trigger] pitches@[k]) by {
        assert(opts[k] == options@[k]@);
        if k == 0 {
            assert(pitches@[0] == opts[0][0]);
        } else {
            assert(is_closest(pitches@[k - 1], opts[k], pitches@[k]));
            let q = choose|q: int| 0 <= q < opts[k].len() && opts[k][q] == pitches@[k];
        }
    }
    let mut tones: Vec<Tone> = Vec::new();
    let start = *ticks_passed;
    let unit: u64 = piece.beats_per_measure as u64 * 120;
    let mut quarters: u64 = 0;
    let mut k: usize = 0;
    while k < pattern.len()
        invariant
            k <= pattern@.len(),
            piece.bpm > 0,
            chord.0@.len() > 0,
            range.0 <= 244,
            range.0 <= range.1,
            range.1 >= 11,
            total(pattern@) == 4,
            start + measure_ticks(*piece) <= MAX_TICKS,
            unit == piece.beats_per_measure * 120,
            quarters == total(pattern@.subrange(0, k as int)),
            quarters <= 4,
            tones@.len() == k,
            pitches@.len() == pattern@.len(),
            forall|j: int| 0 <= j < pitches@.len() ==> candidate(*chord, *range, #[trigger] pitches@[j]),
            forall|j: int| 0 <= j < k ==> (#[trigger] tones@[j]).pitch == pitches@[j] as i32,
            forall|j: int|
                0 <= j < k ==> (#[trigger] tones@[j]).start_time == micros_of(
                    cell_onset(start as int, pattern@, j, *piece),
                    piece.bpm as int,
                ) && tones@[j].duration == micros_of(
                    pattern@[j] * piece.beats_per_measure * 120,
                    piece.bpm as int,
                ),
            forall|j: int|
                0 <= j < k ==> chord_has(*chord, (#[trigger] tones@[j]).pitch as int) && (range.1
                    - range.0 >= 11 ==> range.0 <= tones@[j].pitch <= range.1) && tones@[j].velocity
                    == 127,
        decreases pattern@.len() - k,
    {
        proof {
            let s = pattern@;
            assert(s.subrange(0, k as int + 1) =~= s.subrange(0, k as int) + seq![s[k as int]]);
            lemma_total_concat(s.subrange(0, k as int), seq![s[k as int]]);
            assert(total(seq![s[k as int]]) == s[k as int]) by { reveal_with_fuel(total, 2); }
            assert(s =~= s.subrange(0, k as int + 1) + s.subrange(k as int + 1, s.len() as int));
            lemma_total_concat(s.subrange(0, k as int + 1), s.subrange(k as int + 1, s.len() as int));
            lemma_total_nonneg(s.subrange(k as int + 1, s.len() as int));
        }
        let q = pattern[k];
        assert(quarters * unit <= 4 * unit && q * unit <= 4 * unit && (quarters + q) * unit <= 4 * unit) by (nonlinear_arith)
            requires quarters <= 4, q <= 4, quarters + q <= 4, unit >= 0;
        proof {
            let tq = total(pattern@.subrange(0, k as int));
            let bm = piece.beats_per_measure as int;
            assert(tq * (bm * 120) == tq * bm * 120) by (nonlinear_arith);
            assert(q * (bm * 120) == q * bm * 120) by (nonlinear_arith);
        }
        let onset = start + quarters * unit;
        let duration = q * unit;
        let pitch = pitches[k];
        let t = Tone::new(ticks_to_micros(onset, piece.bpm as u64), ticks_to_micros(duration, piece.bpm as u64), pitch as i32, 127);
        tones.push(t);
        quarters = quarters + q;
        k = k + 1;
    }
    assert(pattern@.subrange(0, pattern@.len() as int) =~= pattern@);
    assert(4 * unit == measure_ticks(*piece));
    *ticks_passed = start + 4 * unit;
    assert(pitches_of(tones@) =~= pitches@);
    assert(melody_led(*chord, tones@)) by {
        assert forall|k: int| 0 <= k < opts.len() implies (#[trigger] opts[k]).len() == 5 && forall|q: int|
            0 <= q < 5 ==> chord_has(*chord, opts[k][q] as int) by {
            assert(opts[k] == options@[k]@);
            assert forall|q: int| 0 <= q < 5 implies chord_has(*chord, opts[k][q] as int) by {
                assert(candidate(*chord, *range, options@[k]@[q]));
            }
        }
        assert(leads(opts, pitches_of(tones@)));
    }
    tones
}

/// The three tones of the chord, each in an octave inside the register,
/// sounding for the whole measure.
fn generate_chord_notes(
    rng: &mut rand::rngs::StdRng,
    piece: &Piece,
    chord: &Chord,
    ticks_passed: &mut u64,
    range: &(u8, u8),
) -> (r: Vec<Tone>)
    requires
        piece.bpm > 0,
        chord.0@.len() >= 3,
        range.0 <= 244,
        range.0 <= range.1,
        range.1 >= 11,
        *old(ticks_passed) + measure_ticks(*piece) <= MAX_TICKS,
    ensures
        *final(ticks_passed) == *old(ticks_passed) + measure_ticks(*piece),
        part_ok(*piece, true, *chord, *old(ticks_passed) as int, r@),
        r@.len() == 3,
        forall|k: int|
            0 <= k < 3 ==> (#[trigger] r@[k]).start_time == micros_of(*old(ticks_passed) as int, piece.bpm as int)
                && r@[k].duration == micros_of(measure_ticks(*piece), piece.bpm as int)
                && r@[k].pitch % 12 == chord.0@[k].pc(),
        forall|k: int|
            0 <= k < r@.len() ==> chord_has(*chord, (#[trigger] r@[k]).pitch as int) && (range.1
                - range.0 >= 11 ==> range.0 <= r@[k].pitch <= range.1) && r@[k].velocity == 127,
{
    let start = *ticks_passed;
    let measure: u64 = piece.beats_per_measure as u64 * 480;
    let start_time = ticks_to_micros(start, piece.bpm as u64);
    let duration = ticks_to_micros(measure, piece.bpm as u64);
    *ticks_passed = start + measure;
    let mut r: Vec<Tone> = Vec::new();
    let mut x: usize = 0;
    while x < 3
        invariant
            x <= 3,
            r@.len() == x,
            chord.0@.len() >= 3,
            range.0 <= 244,
            range.0 <= range.1,
            range.1 >= 11,
            start_time == micros_of(start as int, piece.bpm as int),
            duration == micros_of(measure_ticks(*piece), piece.bpm as int),
            forall|k: int|
                0 <= k < x ==> (#[trigger] r@[k]).start_time == start_time && r@[k].duration == duration
                    && r@[k].pitch % 12 == chord.0@[k].pc() && (range.1 - range.0 >= 11 ==> range.0
                    <= r@[k].pitch <= range.1) && r@[k].velocity == 127,
        decreases 3 - x,
    {
        let pitch = chord.i_from_range(rng, x, range);
        r.push(Tone::new(start_time, duration, pitch as i32, 127));
        x = x + 1;
    }
    assert forall|k: int| 0 <= k < r@.len() implies chord_has(*chord, (#[trigger] r@[k]).pitch as int) by {
        assert(chord.0@[k].pc() == r@[k].pitch % 12);
    }
    r
}

} // verus!
