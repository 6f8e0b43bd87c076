//! Configuration errors: settings that no piece can be generated from.

use vstd::prelude::*;

verus! {

/// Why a generation setting was rejected.
#[derive(Copy, Clone, PartialEq, Eq, Structural, Debug)]
pub enum ConfigError {
    /// A measure of zero beats.
    ZeroLengthMeasure,
    /// A tempo of zero beats per minute, or a tempo range that allows it.
    ZeroTempo,
    /// A tempo range whose lower bound is above its upper bound.
    InvertedTempoRange,
    /// A register whose lowest pitch is above its highest.
    InvertedRegister,
    /// A register whose octave transpositions leave the MIDI byte range
    /// (lowest above 244, or highest below 11).
    RegisterOutOfRange,
    /// A chord with fewer than three tones.
    ChordTooSmall,
    /// A piece too long for the tick clock.
    PieceTooLong,
    /// A beat count for which the rhythm catalog holds no pattern.
    EmptyCatalog,
}

impl ConfigError {
    /// The description of each error.
    pub open spec fn message_spec(self) -> &'static str {
        match self {
            ConfigError::ZeroLengthMeasure => "a measure must have at least one beat",
            ConfigError::ZeroTempo => "the tempo must be at least one beat per minute",
            ConfigError::InvertedTempoRange => "the tempo range's lower bound is above its upper bound",
            ConfigError::InvertedRegister => "the register's lowest pitch is above its highest",
            ConfigError::RegisterOutOfRange => "the register must span pitches 11 to 244 at its edges",
            ConfigError::ChordTooSmall => "every chord needs at least three tones",
            ConfigError::PieceTooLong => "the piece is too long to schedule",
            ConfigError::EmptyCatalog => "no rhythm pattern fills that many beats",
        }
    }

    /// A description of the error.
    pub fn message(&self) -> (r: &'static str)
        ensures
            r == self.message_spec(),
    {
        match self {
            ConfigError::ZeroLengthMeasure => "a measure must have at least one beat",
            ConfigError::ZeroTempo => "the tempo must be at least one beat per minute",
            ConfigError::InvertedTempoRange => "the tempo range's lower bound is above its upper bound",
            ConfigError::InvertedRegister => "the register's lowest pitch is above its highest",
            ConfigError::RegisterOutOfRange => "the register must span pitches 11 to 244 at its edges",
            ConfigError::ChordTooSmall => "every chord needs at least three tones",
            ConfigError::PieceTooLong => "the piece is too long to schedule",
            ConfigError::EmptyCatalog => "no rhythm pattern fills that many beats",
        }
    }
}

} // verus!
