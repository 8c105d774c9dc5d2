//! Verified core of an image-to-ASCII terminal animator: the order in which
//! cells of a character grid are revealed, the frame pacing of each effect, and
//! the trimming of blank borders, all expressed as plain values that a thin
//! driver turns into terminal output.

pub mod effect;
pub mod cell;
pub mod runs;
pub mod animator;
pub mod positions;
pub mod orders;
pub mod script;
pub mod play;
pub mod gif;
pub mod trim;
pub mod laws;
pub mod walk;
