//! A melody that walks the key's scale one degree at a time over four-beat
//! rhythm patterns.

use vstd::prelude::*;

use crate::error::ConfigError;
use crate::instrumentation::{
    check_piece, check_register, lemma_measures_prefix, measure_ticks, measures, piece_error, piece_wf,
    register_error,
};
use crate::music::{Key, Piece};
use crate::scale::mode_offset;
use crate::rhythm::{four_spec, gen_rythm, lemma_total_concat, lemma_total_nonneg, total};
use crate::rng::gen_index;
use crate::tone::{micros_of, ticks_to_micros, Tone, MAX_TICKS};

verus! {

/// `pitch` is one of the seven classes of the key's scale.
pub open spec fn in_scale(key: Key, pitch: int) -> bool {
    exists|d: int| 0 <= d < 7 && #[trigger] key.degree_pc(d) == pitch % 12
}

/// What every tone of the melody satisfies: a class of the key's scale,
/// inside the register when it spans an octave, at full velocity.
pub open spec fn melody_tone(key: Key, range: (u8, u8), t: Tone) -> bool {
    &&& in_scale(key, t.pitch as int)
    &&& range.1 - range.0 >= 11 ==> range.0 <= t.pitch <= range.1
    &&& t.velocity == 127
}

/// For each chord a four-beat rhythm pattern; each of its notes steps one
/// scale degree up or down (a coin flip, cyclic over the seven degrees)
/// from the previous note, starting next to degree 0, and is placed in the
/// register `range`. A piece or register that cannot be voiced is rejected.
pub fn gen_melody(rng: &mut rand::rngs::StdRng, piece: &Piece, range: (u8, u8)) -> (r: Result<Vec<Tone>, ConfigError>)
    ensures
        r is Ok <==> register_error(range) is None && piece_wf(*piece),
        r matches Err(e) ==> e == match register_error(range) {
            Some(x) => x,
            None => piece_error(*piece),
        },
        r matches Ok(tones) ==> forall|k: int|
            0 <= k < tones@.len() ==> melody_tone(piece.key, range, #[trigger] tones@[k]),
        r matches Ok(tones) ==> melody_shape(tones@, *piece) && tones@.len() >= measures(piece.phrases@),
{
    if let Err(e) = check_register(range) {
        return Err(e);
    }
    if let Err(e) = check_piece(piece) {
        return Err(e);
    }
    Ok(melody_tones(rng, piece, range))
}

#[verifier::rlimit(100)]
fn melody_tones(rng: &mut rand::rngs::StdRng, piece: &Piece, range: (u8, u8)) -> (r: Vec<Tone>)
    requires
        piece.bpm > 0,
        piece.beats_per_measure > 0,
        range.0 <= 244,
        range.0 <= range.1,
        range.1 >= 11,
        measures(piece.phrases@) * measure_ticks(*piece) + 1920 <= MAX_TICKS,
    ensures
        forall|k: int| 0 <= k < r@.len() ==> melody_tone(piece.key, range, #[trigger] r@[k]),
        melody_shape(r@, *piece),
        r@.len() >= measures(piece.phrases@),
{
    let m: u64 = piece.beats_per_measure as u64 * 480;
    let bpm = piece.bpm as u64;
    let ghost key = piece.key;
    let ghost total_measures = measures(piece.phrases@);
    proof {
        lemma_measures_prefix(piece.phrases@, 0);
        assert(piece.phrases@.subrange(0, 0) =~= Seq::<crate::music::Phrase>::empty());
    }
    assert(total_measures <= total_measures * m) by (nonlinear_arith)
        requires m >= 480, total_measures >= 0;
    let mut notes: Vec<Tone> = Vec::new();
    let mut degree: usize = 0;
    let ghost mut degs: Seq<int> = Seq::empty();
    let ghost mut owner: Seq<int> = Seq::empty();
    let ghost mut ticks: Seq<int> = Seq::empty();
    let ghost mut first: Seq<int> = Seq::empty();
    let ghost mut lens: Seq<u64> = Seq::empty();
    let ghost mut ends: Seq<int> = Seq::empty();
    let mut c: u64 = 0;
    assert(melody_state(key, range, notes@, degs, 0, owner, ticks, first, lens, ends, 0, m as int, bpm as int)) by {
        reveal(melody_state);
    }
    let mut i: usize = 0;
    while i < piece.phrases.len()
        invariant
            i <= piece.phrases@.len(),
            piece.bpm > 0,
            bpm == piece.bpm,
            key == piece.key,
            range.0 <= 244,
            range.0 <= range.1,
            range.1 >= 11,
            m == measure_ticks(*piece),
            total_measures == measures(piece.phrases@),
            total_measures * m + 1920 <= MAX_TICKS,
            c == measures(piece.phrases@.subrange(0, i as int)),
            total_measures <= MAX_TICKS,
            degree < 7,
            melody_state(key, range, notes@, degs, degree as int, owner, ticks, first, lens, ends, c as int, m as int, bpm as int),
        decreases piece.phrases@.len() - i,
    {
        proof {
            lemma_measures_prefix(piece.phrases@, i as int + 1);
        }
        let phrase = &piece.phrases[i];
        let mut j: usize = 0;
        while j < phrase.harmony.len()
            invariant
                i < piece.phrases@.len(),
                *phrase == piece.phrases@[i as int],
                j <= phrase.harmony@.len(),
                piece.bpm > 0,
                bpm == piece.bpm,
                key == piece.key,
                range.0 <= 244,
                range.0 <= range.1,
                range.1 >= 11,
                m == measure_ticks(*piece),
                total_measures == measures(piece.phrases@),
                total_measures * m + 1920 <= MAX_TICKS,
                c == measures(piece.phrases@.subrange(0, i as int)) + j,
                measures(piece.phrases@.subrange(0, i as int)) + phrase.harmony@.len() <= total_measures,
                total_measures <= MAX_TICKS,
                degree < 7,
                melody_state(key, range, notes@, degs, degree as int, owner, ticks, first, lens, ends, c as int, m as int, bpm as int),
            decreases phrase.harmony@.len() - j,
        {
            assert(c * m <= total_measures * m) by (nonlinear_arith)
                requires c <= total_measures, m >= 0;
            let chord_start = c * m;
            let (mut part, pattern, next, pdegs) = chord_melody(rng, piece, range, chord_start, degree);
            let ghost old_notes = notes@;
            notes.append(&mut part);
            proof {
                let n = pattern@.len();
                let cc = c as int;
                let cs = chord_start as int;
                lemma_extend(key, range, old_notes, degs, degree as int, owner, ticks, first, lens, ends, cc, m as int, bpm as int, notes@.subrange(old_notes.len() as int, notes@.len() as int), pattern@, pdegs@, next as int);
                assert(notes@ =~= old_notes + notes@.subrange(old_notes.len() as int, notes@.len() as int));
                degs = degs + pdegs@;
                owner = owner + Seq::new(n, |k: int| cc);
                ticks = ticks + Seq::new(n, |k: int| cs + total(pattern@.subrange(0, k)));
                first = first.push(old_notes.len() as int);
                lens = lens + pattern@;
                ends = ends.push(notes@.len() as int);
            }
            degree = next;
            c = c + 1;
            j = j + 1;
        }
        proof {
            assert(piece.phrases@.subrange(0, i as int + 1).drop_last() =~= piece.phrases@.subrange(0, i as int));
        }
        i = i + 1;
    }
    assert(piece.phrases@.subrange(0, piece.phrases@.len() as int) =~= piece.phrases@);
    assert(forall|k: int| 0 <= k < notes@.len() ==> melody_tone(piece.key, range, #[trigger] notes@[k])) by {
        reveal(melody_state);
    }
    assert(notes@.len() >= total_measures) by {
        reveal(melody_state);
    }
    assert(sized(notes@, owner, ticks, lens, first, ends, m as int, bpm as int) && walk(piece.key, notes@, degs)
        && timed(notes@, owner, ticks, first, total_measures, m as int, bpm as int)) by {
        reveal(melody_state);
    }
    notes
}

/// Degree `k` is one scale step from degree `k - 1`.
pub open spec fn stepped(degs: Seq<int>, k: int) -> bool {
    scale_step(degs[k - 1], degs[k])
}

/// Entry `k` is at least entry `k - 1`.
pub open spec fn rising(s: Seq<int>, k: int) -> bool {
    s[k - 1] <= s[k]
}

/// One step along the scale's seven degrees, up or down, cyclically.
pub open spec fn scale_step(a: int, b: int) -> bool {
    b == (a + 1) % 7 || b == (a + 6) % 7
}

/// The melody over one chord starting at tick `cs`: the lengths of `p`,
/// a four-beat pattern of the catalog; degrees `pd` each a scale step from
/// the one before, the first a step from `d0`, the last `d1`.
pub open spec fn chord_part(
    key: Key,
    range: (u8, u8),
    d0: int,
    cs: int,
    bpm: int,
    part: Seq<Tone>,
    p: Seq<u64>,
    pd: Seq<int>,
    d1: int,
) -> bool {
    &&& gen_pattern(p)
    &&& part.len() == p.len() && p.len() > 0
    &&& chord_walk(key, range, d0, part, pd, d1)
    &&& forall|k: int|
        0 <= k < part.len() ==> (#[trigger] part[k]).start_time == micros_of(cs + total(p.subrange(0, k)), bpm)
            && part[k].duration == micros_of(p[k] as int, bpm) && total(p.subrange(0, k)) + p[k] <= 1920
}

/// The degrees `pd` of the tones over one chord: each a scale step from
/// the one before, the first a step from `d0`, the last `d1`.
pub open spec fn chord_walk(key: Key, range: (u8, u8), d0: int, part: Seq<Tone>, pd: Seq<int>, d1: int) -> bool {
    &&& pd.len() == part.len() && pd.len() > 0
    &&& d1 == pd.last() && 0 <= d1 < 7
    &&& scale_step(d0, pd[0])
    &&& forall|k: int| 0 < k < pd.len() ==> #[trigger] stepped(pd, k)
    &&& forall|k: int|
        0 <= k < part.len() ==> 0 <= #[trigger] pd[k] < 7 && part[k].pitch % 12 == key.degree_pc(pd[k])
            && melody_tone(key, range, part[k])
}

/// The melody written so far over the first `c` chords, with its
/// degrees, chord of each tone, start ticks, lengths, and each chord's
/// first and past-the-end tone.
#[verifier::opaque]
pub open spec fn melody_state(
    key: Key,
    range: (u8, u8),
    tones: Seq<Tone>,
    degs: Seq<int>,
    degree: int,
    owner: Seq<int>,
    ticks: Seq<int>,
    first: Seq<int>,
    lens: Seq<u64>,
    ends: Seq<int>,
    c: int,
    m: int,
    bpm: int,
) -> bool {
    &&& forall|k: int| 0 <= k < tones.len() ==> melody_tone(key, range, #[trigger] tones[k])
    &&& walk(key, tones, degs)
    &&& tones.len() > 0 ==> degs.last() == degree
    &&& tones.len() == 0 ==> degree == 0
    &&& timed(tones, owner, ticks, first, c, m, bpm)
    &&& tones.len() >= c
    &&& sized_upto(tones, owner, ticks, lens, first, ends, m, bpm)
    &&& ends.len() == c
    &&& c > 0 ==> ends.last() == tones.len() && first[0] == 0
    &&& c == 0 ==> tones.len() == 0
}

proof fn lemma_extend(
    key: Key,
    range: (u8, u8),
    tones: Seq<Tone>,
    degs: Seq<int>,
    degree: int,
    owner: Seq<int>,
    ticks: Seq<int>,
    first: Seq<int>,
    lens: Seq<u64>,
    ends: Seq<int>,
    c: int,
    m: int,
    bpm: int,
    part: Seq<Tone>,
    p: Seq<u64>,
    pd: Seq<int>,
    d1: int,
)
    requires
        melody_state(key, range, tones, degs, degree, owner, ticks, first, lens, ends, c, m, bpm),
        chord_part(key, range, degree, c * m, bpm, part, p, pd, d1),
        c >= 0,
        m >= 0,
    ensures
        melody_state(
            key,
            range,
            tones + part,
            degs + pd,
            d1,
            owner + Seq::new(p.len(), |k: int| c),
            ticks + Seq::new(p.len(), |k: int| c * m + total(p.subrange(0, k))),
            first.push(tones.len() as int),
            lens + p,
            ends.push((tones.len() + part.len()) as int),
            c + 1,
            m,
            bpm,
        ),
{
    reveal(melody_state);
    lemma_extend_walk(key, range, tones, degs, degree, owner, ticks, first, lens, ends, c, m, bpm, part, p, pd, d1);
    lemma_extend_timed(key, range, tones, degs, degree, owner, ticks, first, lens, ends, c, m, bpm, part, p, pd, d1);
    lemma_extend_sized(key, range, tones, degs, degree, owner, ticks, first, lens, ends, c, m, bpm, part, p, pd, d1);
}

proof fn lemma_extend_walk(
    key: Key,
    range: (u8, u8),
    tones: Seq<Tone>,
    degs: Seq<int>,
    degree: int,
    owner: Seq<int>,
    ticks: Seq<int>,
    first: Seq<int>,
    lens: Seq<u64>,
    ends: Seq<int>,
    c: int,
    m: int,
    bpm: int,
    part: Seq<Tone>,
    p: Seq<u64>,
    pd: Seq<int>,
    d1: int,
)
    requires
        forall|k: int| 0 <= k < tones.len() ==> melody_tone(key, range, #[trigger] tones[k]),
        walk(key, tones, degs),
        tones.len() > 0 ==> degs.last() == degree,
        tones.len() == 0 ==> degree == 0,
        chord_walk(key, range, degree, part, pd, d1),
    ensures
        forall|k: int| 0 <= k < (tones + part).len() ==> melody_tone(key, range, #[trigger] (tones + part)[k]),
        walk(key, tones + part, degs + pd),
{
    let n = tones.len();
    let t2 = tones + part;
    let d2 = degs + pd;
    assert forall|k: int| 0 <= k < t2.len() implies melody_tone(key, range, #[trigger] t2[k]) by {
        if k >= n {
            assert(t2[k] == part[k - n]);
            assert(0 <= pd[k - n] < 7);
        } else {
            assert(t2[k] == tones[k]);
        }
    }
    assert forall|k: int|
        0 <= k < t2.len() implies 0 <= #[trigger] d2[k] < 7 && t2[k].pitch % 12 == key.degree_pc(d2[k]) by {
        if k >= n {
            assert(t2[k] == part[k - n] && d2[k] == pd[k - n]);
        } else {
            assert(t2[k] == tones[k] && d2[k] == degs[k]);
        }
    }
    assert forall|k: int| 0 < k < t2.len() implies #[trigger] stepped(d2, k) by {
        if k > n {
            assert(d2[k] == pd[k - n] && d2[k - 1] == pd[k - n - 1]);
            assert(stepped(pd, k - n));
        } else if k == n {
            assert(d2[k] == pd[0] && d2[k - 1] == degs.last());
        } else {
            assert(d2[k] == degs[k] && d2[k - 1] == degs[k - 1]);
            assert(stepped(degs, k));
        }
    }
    if n == 0 {
        assert(d2[0] == pd[0]);
        assert(scale_step(0, pd[0]));
    } else {
        assert(d2[0] == degs[0]);
    }
    assert(walk(key, t2, d2));
}

proof fn lemma_extend_timed(
    key: Key,
    range: (u8, u8),
    tones: Seq<Tone>,
    degs: Seq<int>,
    degree: int,
    owner: Seq<int>,
    ticks: Seq<int>,
    first: Seq<int>,
    lens: Seq<u64>,
    ends: Seq<int>,
    c: int,
    m: int,
    bpm: int,
    part: Seq<Tone>,
    p: Seq<u64>,
    pd: Seq<int>,
    d1: int,
)
    requires
        melody_state(key, range, tones, degs, degree, owner, ticks, first, lens, ends, c, m, bpm),
        chord_part(key, range, degree, c * m, bpm, part, p, pd, d1),
        c >= 0,
        m >= 0,
    ensures
        timed(tones + part, owner + Seq::new(p.len(), |k: int| c), ticks + Seq::new(p.len(), |k: int| c * m + total(p.subrange(0, k))), first.push(tones.len() as int), c + 1, m, bpm),
{
    reveal(melody_state);
    let n = tones.len();
    let t2 = tones + part;
    let d2 = degs + pd;
    let o2 = owner + Seq::new(p.len(), |k: int| c);
    let k2 = ticks + Seq::new(p.len(), |k: int| c * m + total(p.subrange(0, k)));
    let f2 = first.push(n as int);
    let l2 = lens + p;
    let e2 = ends.push((n + part.len()) as int);
    assert forall|k: int|
        0 <= k < t2.len() implies 0 <= #[trigger] o2[k] < c + 1 && o2[k] * m <= k2[k] < o2[k] * m + 1920
            && t2[k].start_time == micros_of(k2[k], bpm) by {
        if k >= n {
            let q = k - n;
            assert(o2[k] == c && k2[k] == c * m + total(p.subrange(0, q)) && t2[k] == part[q]);
            assert(total(p.subrange(0, q)) + p[q] <= 1920);
            lemma_total_nonneg(p.subrange(0, q));
        } else {
            assert(o2[k] == owner[k] && k2[k] == ticks[k] && t2[k] == tones[k]);
        }
    }
    assert forall|k: int| 0 < k < t2.len() implies #[trigger] rising(o2, k) by {
        if k > n {
        } else if k == n {
            assert(o2[k - 1] == owner[k - 1]);
            assert(owner[k - 1] < c);
        } else {
            assert(o2[k] == owner[k] && o2[k - 1] == owner[k - 1]);
            assert(rising(owner, k));
        }
    }
    assert forall|cc: int|
        0 <= cc < f2.len() implies 0 <= #[trigger] f2[cc] < t2.len() && o2[f2[cc]] == cc && k2[f2[cc]] == cc * m by {
        if cc == c {
            assert(f2[cc] == n);
            assert(p.subrange(0, 0) =~= Seq::<u64>::empty());
            assert(k2[n as int] == c * m + total(p.subrange(0, 0)));
        } else {
            assert(f2[cc] == first[cc]);
            assert(o2[first[cc]] == owner[first[cc]] && k2[first[cc]] == ticks[first[cc]]);
        }
    }
    assert(timed(t2, o2, k2, f2, c + 1, m, bpm));
}

proof fn lemma_extend_sized(
    key: Key,
    range: (u8, u8),
    tones: Seq<Tone>,
    degs: Seq<int>,
    degree: int,
    owner: Seq<int>,
    ticks: Seq<int>,
    first: Seq<int>,
    lens: Seq<u64>,
    ends: Seq<int>,
    c: int,
    m: int,
    bpm: int,
    part: Seq<Tone>,
    p: Seq<u64>,
    pd: Seq<int>,
    d1: int,
)
    requires
        melody_state(key, range, tones, degs, degree, owner, ticks, first, lens, ends, c, m, bpm),
        chord_part(key, range, degree, c * m, bpm, part, p, pd, d1),
        c >= 0,
        m >= 0,
    ensures
        sized_upto(tones + part, owner + Seq::new(p.len(), |k: int| c), ticks + Seq::new(p.len(), |k: int| c * m + total(p.subrange(0, k))), lens + p, first.push(tones.len() as int), ends.push((tones.len() + part.len()) as int), m, bpm),
{
    reveal(melody_state);
    let n = tones.len();
    let t2 = tones + part;
    let d2 = degs + pd;
    let o2 = owner + Seq::new(p.len(), |k: int| c);
    let k2 = ticks + Seq::new(p.len(), |k: int| c * m + total(p.subrange(0, k)));
    let f2 = first.push(n as int);
    let l2 = lens + p;
    let e2 = ends.push((n + part.len()) as int);
    assert forall|k: int|
        0 <= k < t2.len() implies #[trigger] l2[k] > 0 && t2[k].duration == micros_of(l2[k] as int, bpm)
            && k2[k] + l2[k] <= o2[k] * m + 1920 by {
        if k >= n {
            let q = k - n;
            assert(l2[k] == p[q] && t2[k] == part[q] && o2[k] == c && k2[k] == c * m + total(p.subrange(0, q)));
        } else {
            assert(l2[k] == lens[k] && t2[k] == tones[k] && o2[k] == owner[k] && k2[k] == ticks[k]);
        }
    }
    assert forall|cc: int|
        0 <= cc < e2.len() implies f2[cc] <= #[trigger] e2[cc] <= t2.len() && four_spec().contains(
            l2.subrange(f2[cc], e2[cc]),
        ) && (cc + 1 < e2.len() ==> e2[cc] == f2[cc + 1]) && forall|q: int|
            f2[cc] <= q < e2[cc] ==> #[trigger] k2[q] == cc * m + total(l2.subrange(f2[cc], q)) by {
        if cc == c {
            assert(l2.subrange(n as int, (n + p.len()) as int) =~= p);
            assert forall|q: int| f2[cc] <= q < e2[cc] implies #[trigger] k2[q] == cc * m + total(l2.subrange(f2[cc], q)) by {
                assert(l2.subrange(n as int, q) =~= p.subrange(0, q - n));
            }
        } else {
            assert(f2[cc] == first[cc] && e2[cc] == ends[cc]);
            assert(l2.subrange(first[cc], ends[cc]) =~= lens.subrange(first[cc], ends[cc]));
            if cc + 1 == c {
                assert(ends[cc] == n);
            }
            assert forall|q: int| f2[cc] <= q < e2[cc] implies #[trigger] k2[q] == cc * m + total(l2.subrange(f2[cc], q)) by {
                assert(l2.subrange(first[cc], q) =~= lens.subrange(first[cc], q));
                assert(k2[q] == ticks[q]);
            }
        }
    }
    assert(sized_upto(t2, o2, k2, l2, f2, e2, m, bpm));
}

/// The melody over one chord starting at tick `chord_start`: a four-beat
/// pattern of the catalog, each note one scale step (a coin flip) from the
/// one before, starting from `degree`; returns the tones, the pattern, the
/// last degree and the degrees.
fn chord_melody(
    rng: &mut rand::rngs::StdRng,
    piece: &Piece,
    range: (u8, u8),
    chord_start: u64,
    degree: usize,
) -> (r: (Vec<Tone>, Vec<u64>, usize, Ghost<Seq<int>>))
    requires
        piece.bpm > 0,
        range.0 <= 244,
        range.0 <= range.1,
        range.1 >= 11,
        degree < 7,
        chord_start + 1920 <= MAX_TICKS,
    ensures
        chord_part(piece.key, range, degree as int, chord_start as int, piece.bpm as int, r.0@, r.1@, r.3@, r.2 as int),
        r.2 < 7,
{
    let (lo, hi) = range;
    let bpm = piece.bpm as u64;
    let pattern = gen_rythm(rng);
    assert(seq![pattern@][0] == pattern@);
    assert(total(seq![pattern@][0]) == 1920);
    let mut notes: Vec<Tone> = Vec::new();
    let ghost mut pd: Seq<int> = Seq::empty();
    let mut d = degree;
    let mut offset: u64 = 0;
    let mut k: usize = 0;
    while k < pattern.len()
        invariant
            k <= pattern@.len(),
            gen_pattern(pattern@),
            pattern@.len() > 0,
            total(pattern@) == 1920,
            forall|q: int| 0 <= q < pattern@.len() ==> pattern@[q] > 0,
            offset == total(pattern@.subrange(0, k as int)),
            offset <= 1920,
            chord_start + 1920 <= MAX_TICKS,
            bpm > 0,
            bpm == piece.bpm,
            range == (lo, hi),
            lo <= 244,
            lo <= hi,
            hi >= 11,
            d < 7,
            notes@.len() == k,
            pd.len() == k,
            k > 0 ==> d == pd.last(),
            k == 0 ==> d == degree,
            k > 0 ==> scale_step(degree as int, pd[0]),
            forall|q: int| 0 < q < k ==> #[trigger] stepped(pd, q),
            forall|q: int|
                0 <= q < k ==> 0 <= #[trigger] pd[q] < 7 && notes@[q].pitch % 12 == piece.key.degree_pc(pd[q])
                    && melody_tone(piece.key, range, notes@[q]),
            forall|q: int|
                0 <= q < k ==> (#[trigger] notes@[q]).start_time == micros_of(
                    chord_start + total(pattern@.subrange(0, q)),
                    bpm as int,
                ) && notes@[q].duration == micros_of(pattern@[q] as int, bpm as int) && total(
                    pattern@.subrange(0, q),
                ) + pattern@[q] <= 1920,
        decreases pattern@.len() - k,
    {
        proof {
            let s = pattern@;
            assert(s.subrange(0, k as int + 1) =~= s.subrange(0, k as int) + seq![s[k as int]]);
            lemma_total_concat(s.subrange(0, k as int), seq![s[k as int]]);
            assert(total(seq![s[k as int]]) == s[k as int]) by { reveal_with_fuel(total, 2); }
            assert(s =~= s.subrange(0, k as int + 1) + s.subrange(k as int + 1, s.len() as int));
            lemma_total_concat(s.subrange(0, k as int + 1), s.subrange(k as int + 1, s.len() as int));
            lemma_total_nonneg(s.subrange(k as int + 1, s.len() as int));
        }
        let note = pattern[k];
        let up = gen_index(rng, 2) == 1;
        let prev = d;
        d = if up { (d + 1) % 7 } else { (d + 6) % 7 };
        let class = piece.key.from_index(d);
        let pitch = class.midi_range(lo, hi);
        assert(piece.key.degree_pc(d as int) == pitch % 12);
        let t = Tone::new(ticks_to_micros(chord_start + offset, bpm), ticks_to_micros(note, bpm), pitch as i32, 127);
        notes.push(t);
        proof {
            let old_pd = pd;
            pd = pd.push(d as int);
            assert(scale_step(prev as int, d as int));
            assert forall|q: int| 0 < q < k + 1 implies #[trigger] stepped(pd, q) by {
                if q < k {
                    assert(stepped(old_pd, q));
                }
            }
        }
        offset = offset + note;
        k = k + 1;
    }
    (notes, pattern, d, Ghost(pd))
}

/// The degrees of a melody: each tone's class is the key's degree
/// `degs[k]`, the first a step from degree 0, each next one degree up or
/// down (cyclically) from the one before.
pub open spec fn walk(key: Key, tones: Seq<Tone>, degs: Seq<int>) -> bool {
    &&& degs.len() == tones.len()
    &&& forall|k: int|
        0 <= k < tones.len() ==> 0 <= #[trigger] degs[k] < 7 && tones[k].pitch % 12 == key.degree_pc(degs[k])
    &&& tones.len() > 0 ==> degs[0] == 1 || degs[0] == 6
    &&& forall|k: int|
        0 < k < tones.len() ==> #[trigger] stepped(degs, k)
}

/// The timing of a melody over `n` chords of `m` ticks at `bpm`: tone `k`
/// belongs to chord `owner[k]` (never decreasing along the melody) and
/// starts at tick `ticks[k]` within the first four beats of that chord;
/// the tone `first[c]` starts chord `c` exactly on its first tick.
pub open spec fn timed_upto(
    tones: Seq<Tone>,
    owner: Seq<int>,
    ticks: Seq<int>,
    first: Seq<int>,
    n: int,
    m: int,
    bpm: int,
) -> bool {
    &&& owner.len() == tones.len() && ticks.len() == tones.len()
    &&& forall|k: int|
        0 <= k < tones.len() ==> 0 <= #[trigger] owner[k] < n && owner[k] * m <= ticks[k] < owner[k] * m + 1920
            && tones[k].start_time == micros_of(ticks[k], bpm)
    &&& forall|k: int| 0 < k < tones.len() ==> #[trigger] rising(owner, k)
    &&& forall|c: int|
        0 <= c < first.len() ==> 0 <= #[trigger] first[c] < tones.len() && owner[first[c]] == c && ticks[first[c]]
            == c * m
}

/// The pattern drawn for a chord: a four-beat pattern of the catalog with
/// positive lengths.
pub open spec fn gen_pattern(p: Seq<u64>) -> bool {
    &&& four_spec().contains(p)
    &&& total(p) == 1920
    &&& forall|q: int| 0 <= q < p.len() ==> p[q] > 0
}

/// The lengths of a melody's tones: tone `k` lasts `lens[k]` ticks (positive,
/// ending within its chord's first four beats); the tones `first[c]` up to
/// `ends[c]` are those of chord `c`, their lengths a four-beat pattern of the
/// catalog, each starting where the previous one ends.
pub open spec fn sized_upto(
    tones: Seq<Tone>,
    owner: Seq<int>,
    ticks: Seq<int>,
    lens: Seq<u64>,
    first: Seq<int>,
    ends: Seq<int>,
    m: int,
    bpm: int,
) -> bool {
    &&& lens.len() == tones.len()
    &&& forall|k: int|
        0 <= k < tones.len() ==> #[trigger] lens[k] > 0 && tones[k].duration == micros_of(lens[k] as int, bpm)
            && ticks[k] + lens[k] <= owner[k] * m + 1920
    &&& ends.len() <= first.len()
    &&& forall|c: int|
        0 <= c < ends.len() ==> first[c] <= #[trigger] ends[c] <= tones.len() && four_spec().contains(
            lens.subrange(first[c], ends[c]),
        ) && (c + 1 < ends.len() ==> ends[c] == first[c + 1]) && forall|q: int|
            first[c] <= q < ends[c] ==> #[trigger] ticks[q] == c * m + total(lens.subrange(first[c], q))
}

/// Every chord's tones are sized (see [`sized_upto`]) and they cover the
/// melody from its first tone to its last.
pub open spec fn sized(
    tones: Seq<Tone>,
    owner: Seq<int>,
    ticks: Seq<int>,
    lens: Seq<u64>,
    first: Seq<int>,
    ends: Seq<int>,
    m: int,
    bpm: int,
) -> bool {
    &&& sized_upto(tones, owner, ticks, lens, first, ends, m, bpm)
    &&& ends.len() == first.len()
    &&& first.len() > 0 ==> first[0] == 0 && ends.last() == tones.len()
}

pub open spec fn timed(tones: Seq<Tone>, owner: Seq<int>, ticks: Seq<int>, first: Seq<int>, n: int, m: int, bpm: int) -> bool {
    &&& timed_upto(tones, owner, ticks, first, n, m, bpm)
    &&& first.len() == n
}

/// What the melody's shape satisfies over the piece's chords: a walk of
/// single scale steps, every chord starting a tone on its first tick, and
/// each tone inside the first four beats of its chord, in chord order;
/// the lengths of each chord's tones are a four-beat pattern of the
/// catalog, each tone starting where the one before it ends.
pub open spec fn melody_shape(tones: Seq<Tone>, piece: Piece) -> bool {
    exists|degs: Seq<int>, owner: Seq<int>, ticks: Seq<int>, first: Seq<int>, lens: Seq<u64>, ends: Seq<int>|
        #![trigger walk(piece.key, tones, degs), sized(tones, owner, ticks, lens, first, ends, measure_ticks(piece), piece.bpm as int), timed(tones, owner, ticks, first, measures(piece.phrases@), measure_ticks(piece), piece.bpm as int)]
        walk(piece.key, tones, degs) && sized(tones, owner, ticks, lens, first, ends, measure_ticks(piece), piece.bpm as int) && timed(
            tones,
            owner,
            ticks,
            first,
            measures(piece.phrases@),
            measure_ticks(piece),
            piece.bpm as int,
        )
}

/// The highest scale degree (counted from degree 0 of octave -1) that a
/// written slot or chord tone may hold.
pub const MAX_DEGREE: u32 = 69;

/// The MIDI pitch of an absolute scale degree: octave `d / 7` above MIDI 0
/// (C-1), then the key's tonic and the degree's offset.
pub open spec fn degree_midi(key: Key, d: int) -> int {
    12 * (d / 7) + key.1.pc() + mode_offset(key.0, d % 7)
}

/// A neighbour's degree moved one step up (below the top degree) or down
/// (above degree 0).
pub open spec fn step_from(p: int, r: int) -> bool {
    (p < MAX_DEGREE && r == p + 1) || (p > 0 && r == p - 1)
}

/// What the degree `r` chosen for an ornamental slot satisfies, given its
/// neighbours' degrees (see [`resolve_ornament`]).
pub open spec fn ornament_ok(left: Option<u32>, right: Option<u32>, chord: Seq<u32>, r: int) -> bool {
    match (left, right) {
        (None, None) => exists|i: int| 0 <= i < chord.len() && chord[i] == r,
        (Some(l), None) => step_from(l as int, r),
        (None, Some(x)) => step_from(x as int, r),
        (Some(l), Some(x)) => if -1 <= l - x <= 1 {
            step_from(l as int, r) || step_from(x as int, r)
        } else if l < x {
            l < r < x
        } else {
            x < r < l
        },
    }
}

/// The degree for an ornamental slot from the degrees of its neighbours:
/// with none, a chord tone; with one, a step up or down from it; with two
/// at most one degree apart, a step from one of them; with two further
/// apart, a degree strictly between them. Coin flips and picks are random.
pub fn resolve_ornament(
    rng: &mut rand::rngs::StdRng,
    left: Option<u32>,
    right: Option<u32>,
    chord: &Vec<u32>,
) -> (r: u32)
    requires
        chord@.len() > 0,
        forall|k: int| 0 <= k < chord@.len() ==> #[trigger] chord@[k] <= MAX_DEGREE,
        left matches Some(l) ==> l <= MAX_DEGREE,
        right matches Some(x) ==> x <= MAX_DEGREE,
    ensures
        ornament_ok(left, right, chord@, r as int),
        r <= MAX_DEGREE,
{
    match (left, right) {
        (None, None) => {
            let i = gen_index(rng, chord.len());
            chord[i]
        },
        (Some(p), None) | (None, Some(p)) => step(rng, p),
        (Some(l), Some(x)) => {
            if l <= x + 1 && x <= l + 1 {
                if gen_index(rng, 2) == 0 {
                    step(rng, l)
                } else {
                    step(rng, x)
                }
            } else {
                let (lo, hi) = if l < x { (l, x) } else { (x, l) };
                lo + 1 + gen_index(rng, (hi - lo - 1) as usize) as u32
            }
        },
    }
}

/// One degree up or down from `p`, on a coin flip; up from degree 0 and
/// down from the top degree.
fn step(rng: &mut rand::rngs::StdRng, p: u32) -> (r: u32)
    requires
        p <= MAX_DEGREE,
    ensures
        step_from(p as int, r as int),
        r <= MAX_DEGREE,
{
    if p == 0 {
        1
    } else if p == MAX_DEGREE || gen_index(rng, 2) == 0 {
        p - 1
    } else {
        p + 1
    }
}

/// The pitch of an absolute scale degree in the key.
pub fn degree_pitch(key: &Key, d: u32) -> (r: u8)
    requires
        d <= MAX_DEGREE,
    ensures
        r == degree_midi(*key, d as int),
        in_scale(*key, r as int),
{
    let offsets = key.offsets();
    let r = 12 * (d / 7) as u8 + key.1.midi() - 60 + offsets[(d % 7) as usize];
    assert(key.degree_pc((d % 7) as int) == r % 12) by {
        assert((12 * (d as int / 7) + key.1.pc() + mode_offset(key.0, d as int % 7)) % 12
            == (key.1.pc() + mode_offset(key.0, d as int % 7)) % 12) by (nonlinear_arith)
            requires d >= 0;
    }
    r
}

/// The pitches of a line of slots written as scale degrees, `None`
/// marking an ornamental slot. Written slots keep their degree; each
/// ornamental slot is resolved by [`resolve_ornament`] from the degree just
/// resolved to its left and the written degree to its right (a neighbour
/// that is absent or itself ornamental counts as absent). Every pitch lies
/// in the key's scale.
pub fn resolve_passing_tones(
    rng: &mut rand::rngs::StdRng,
    key: &Key,
    slots: &Vec<Option<u32>>,
    chord: &Vec<u32>,
) -> (r: Vec<u8>)
    requires
        chord@.len() > 0,
        forall|k: int| 0 <= k < chord@.len() ==> #[trigger] chord@[k] <= MAX_DEGREE,
        forall|k: int| 0 <= k < slots@.len() ==> (#[trigger] slots@[k] matches Some(d) ==> d <= MAX_DEGREE),
    ensures
        r@.len() == slots@.len(),
        forall|k: int| 0 <= k < r@.len() ==> in_scale(*key, #[trigger] r@[k] as int),
        forall|k: int|
            0 <= k < r@.len() ==> (slots@[k] matches Some(d) ==> #[trigger] r@[k] == degree_midi(*key, d as int)),
        exists|degs: Seq<int>| #[trigger] resolved(*key, slots@, chord@, r@, degs),
{
    let mut r: Vec<u8> = Vec::new();
    let mut prev: Option<u32> = None;
    let ghost mut degs: Seq<int> = Seq::empty();
    let mut k: usize = 0;
    while k < slots.len()
        invariant
            k <= slots@.len(),
            r@.len() == k,
            chord@.len() > 0,
            forall|j: int| 0 <= j < chord@.len() ==> #[trigger] chord@[j] <= MAX_DEGREE,
            forall|j: int| 0 <= j < slots@.len() ==> (#[trigger] slots@[j] matches Some(d) ==> d <= MAX_DEGREE),
            prev matches Some(p) ==> p <= MAX_DEGREE,
            forall|j: int| 0 <= j < k ==> in_scale(*key, #[trigger] r@[j] as int),
            forall|j: int|
                0 <= j < k ==> (slots@[j] matches Some(d) ==> #[trigger] r@[j] == degree_midi(*key, d as int)),
            resolved_upto(*key, slots@, chord@, r@, degs),
            k == 0 ==> prev is None,
            k > 0 ==> prev == Some(degs.last() as u32),
        decreases slots@.len() - k,
    {
        let d = match slots[k] {
            Some(d) => d,
            None => {
                let right = if k + 1 < slots.len() {
                    slots[k + 1]
                } else {
                    None
                };
                resolve_ornament(rng, prev, right, chord)
            },
        };
        r.push(degree_pitch(key, d));
        proof {
            degs = degs.push(d as int);
            assert(k > 0 ==> slot_left(degs, k as int) == Some(degs[k - 1] as u32));
        }
        prev = Some(d);
        k = k + 1;
    }
    assert(resolved(*key, slots@, chord@, r@, degs));
    r
}

/// The degree just before slot `k`, absent for the first slot.
pub open spec fn slot_left(degs: Seq<int>, k: int) -> Option<u32> {
    if k == 0 {
        None
    } else {
        Some(degs[k - 1] as u32)
    }
}

/// The written degree just after slot `k`; absent past the end or where
/// that slot is itself ornamental.
pub open spec fn slot_right(slots: Seq<Option<u32>>, k: int) -> Option<u32> {
    if k + 1 < slots.len() {
        slots[k + 1]
    } else {
        None
    }
}

/// The pitches `r` of the first slots come from the degrees `degs`: a
/// written slot keeps its degree, an ornamental one satisfies
/// [`ornament_ok`] with the degree to its left and the written degree to
/// its right.
pub open spec fn resolved_upto(key: Key, slots: Seq<Option<u32>>, chord: Seq<u32>, r: Seq<u8>, degs: Seq<int>) -> bool {
    &&& degs.len() == r.len()
    &&& r.len() <= slots.len()
    &&& forall|k: int|
        0 <= k < r.len() ==> 0 <= #[trigger] degs[k] <= MAX_DEGREE && r[k] == degree_midi(key, degs[k])
            && match slots[k] {
            Some(d) => degs[k] == d,
            None => ornament_ok(slot_left(degs, k), slot_right(slots, k), chord, degs[k]),
        }
}

/// Every slot is resolved (see [`resolved_upto`]).
pub open spec fn resolved(key: Key, slots: Seq<Option<u32>>, chord: Seq<u32>, r: Seq<u8>, degs: Seq<int>) -> bool {
    resolved_upto(key, slots, chord, r, degs) && r.len() == slots.len()
}

} // verus!
