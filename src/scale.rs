//! A diatonic scale as absolute pitches built on a tonic.

use vstd::prelude::*;

verus! {

/// Semitone offsets from the tonic of the seven degrees of a mode.
pub open spec fn mode_offset(major: bool, degree: int) -> int {
    if major {
        seq![0int, 2, 4, 5, 7, 9, 11][degree]
    } else {
        seq![0int, 2, 3, 5, 7, 8, 10][degree]
    }
}

pub enum Mode {
    Major,
    Minor,
}

impl Mode {
    pub open spec fn is_major(&self) -> bool {
        self is Major
    }

    /// The seven semitone offsets of the mode, degree by degree.
    pub fn offsets(&self) -> (r: [u8; 7])
        ensures
            forall|d: int| 0 <= d < 7 ==> r@[d] == mode_offset(self.is_major(), d),
    {
        match self {
            Mode::Major => [0, 2, 4, 5, 7, 9, 11],
            Mode::Minor => [0, 2, 3, 5, 7, 8, 10],
        }
    }
}

pub struct Scale {
    tonic: u8,
    mode: Mode,
}

impl Scale {
    pub closed spec fn tonic_spec(&self) -> int {
        self.tonic as int
    }

    pub closed spec fn is_major(&self) -> bool {
        self.mode.is_major()
    }

    /// A scale on `tonic`; every degree's pitch must fit a `u8`.
    pub fn new(tonic: u8, mode: Mode) -> (r: Scale)
        requires
            tonic as int + 11 <= u8::MAX,
        ensures
            r.tonic_spec() == tonic as int,
            r.is_major() == mode.is_major(),
    {
        Scale { tonic, mode }
    }

    /// The absolute pitch of each degree: tonic plus the mode's offset.
    pub fn pitches(&self) -> (r: [u8; 7])
        requires
            self.tonic_spec() + 11 <= u8::MAX,
        ensures
            forall|d: int|
                0 <= d < 7 ==> r@[d] == self.tonic_spec() + mode_offset(self.is_major(), d),
    {
        let offsets = self.mode.offsets();
        let mut r: [u8; 7] = [0; 7];
        let mut i: usize = 0;
        while i < 7
            invariant
                0 <= i <= 7,
                self.tonic_spec() + 11 <= u8::MAX,
                forall|d: int| 0 <= d < 7 ==> offsets@[d] == mode_offset(self.is_major(), d),
                forall|d: int|
                    0 <= d < i ==> r@[d] == self.tonic_spec() + mode_offset(self.is_major(), d),
            decreases 7 - i,
        {
            r[i] = offsets[i] + self.tonic;
            i = i + 1;
        }
        r
    }
}

} // verus!
