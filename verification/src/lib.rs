//! Bounded battery telemetry engine: a binary record codec for a sample
//! history, a dual-criterion retention pruner, a trailing-window rate
//! estimator, and a projector that maps the series into normalized plot
//! coordinates.
//!
//! The charge level of a sample is carried as the bit pattern of an
//! IEEE-754 single-precision percentage, so that the codec is exact and the
//! few decisions the engine takes on levels are stated precisely over bits.
//! Reading the battery, talking to the store that holds the encoded blob,
//! and putting pixels on a surface are left to the surrounding program.
pub mod codec;
pub mod estimator;
pub mod projector;
pub mod pruner;
pub mod state;
