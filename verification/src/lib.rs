//! Track association for radar returns: decides whether a located return
//! continues a known track or starts a new one, and keeps a short history of
//! positions for every track.
//!
//! Real numbers are carried as binary64 bit patterns ([`scalar::Scalar`]);
//! the arithmetic on them is left to the caller, the decisions are made here.

pub mod clock;
pub mod scalar;
pub mod geometry;
pub mod track;
pub mod store;
