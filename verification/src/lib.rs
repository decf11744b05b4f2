//! Snapshot testing with human review.
//!
//! A test serializes a value to text and compares it with an accepted
//! baseline. A mismatch leaves a received candidate behind, and a review
//! session later decides, from content fingerprints taken before and after an
//! external editor ran, what the operator did with each candidate.
//!
//! The library decides; its caller reads and writes the files.

pub mod artifact;
pub mod discovery;
pub mod fingerprint;
pub mod review;
pub mod session;
pub mod snapshot;
pub mod text;
