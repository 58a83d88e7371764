//! A simulator for a two-qubit register held as eight amplitudes.
//!
//! A line of comma-separated gate names is parsed into tokens, the tokens are
//! applied in order to an [`state::AmplitudeVector`], four bucket
//! probabilities are derived from the amplitudes, and a list of uniform draws
//! is turned into one count per bucket.
//!
//! The library is generic over the number type of the amplitudes. It needs
//! the arithmetic operators and the comparisons of that type and a handful
//! of constants ([`scalar::Numerics`]). Every contract says which operator
//! was applied to which numbers, in terms of what the operators may return;
//! that holds for every number type, rounded arithmetic included. For a
//! type whose operators compute their specification functions the same
//! contracts give each result as a formula.
//!
//! Three choices are fixed, and the tests show each of them:
//! - a draw is tried against the buckets in the order 0, 1, 2, 3, always;
//! - a trial whose draw no running sum exceeds is dropped and counted
//!   nowhere, so the counts may add up to less than the number of draws;
//! - amplitudes whose squared norm has drifted from one are rescaled only
//!   under [`probability::Normalization::Rescale`], and to rescale
//!   amplitudes of norm zero is an error, not a division by zero.
//!
//! The library makes no random numbers and reads and prints nothing: the
//! caller hands in the line and the draws and shows what comes back.

pub mod gate;
pub mod probability;
pub mod sampler;
pub mod scalar;
pub mod simulation;
pub mod state;
pub mod token;
