//! Input sizes for benchmark sweeps.
//!
//! A sweep runs the same measurement over a geometric progression of byte
//! counts. This crate generates those progressions, pairs every size with a
//! binary-unit label, and prepares the byte buffers that the measurements
//! work on.
//!
//! * [`progression`] holds the mathematical model of a progression and the
//!   facts proved about it.
//! * [`size_iter`] holds [`SizeIterator`], the generator of one progression.
//!   Its view is the [`progression::GeneratorState`] it is in.
//! * [`bands`] holds [`size`] and its [`Sweep`], which stitches four
//!   progressions with decreasing multipliers into one sequence.
//! * [`units`] holds the byte units and the labels.
//! * [`buffer`] holds the buffer helpers.

pub mod bands;
pub mod buffer;
pub mod progression;
pub mod size_iter;
pub mod units;

pub use bands::{size, Sweep};
pub use buffer::{mk_vec, random_vec};
pub use size_iter::{InvalidArgument, SizeIterator};
pub use units::{GB, KB, MB};
