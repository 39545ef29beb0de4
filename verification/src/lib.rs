//! A text-driven music-theory engine: pitches, a note parser, a small algebra
//! of transformations, an interval and chord analyzer, and the plan for
//! rendering notes as sound.
//!
//! The whole model is exact integer arithmetic. A deviation from a semitone
//! is a number of thousandths of a cent. A frequency is a position on the
//! logarithmic scale, in the same unit: zero is MIDI note 0, every semitone
//! is 100 000 further up, every octave 1 200 000, and A4, which sounds at
//! 440 Hz, stands at 6 900 000. Multiplying a frequency by a ratio is adding
//! the interval that the ratio spans. What only floating point can do, from
//! a position to hertz and from a ratio to its interval, is left to the
//! caller, who hands the results in as plain integers.

pub mod analysis;
pub mod line;
pub mod number;
pub mod parse;
pub mod pitch;
pub mod session;
pub mod synth;
pub mod text;
pub mod transform;
