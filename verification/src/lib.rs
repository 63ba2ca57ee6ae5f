//! Competitive riffing for agents: two or more agents riff against each
//! other round by round, and the session picks how the next round answers
//! the last one.
//!
//! The library holds the session's state machine: qualities, response
//! modes, rounds of riffs, the productive streak, stale detection, the
//! recent quality history and the session's counts. How surprising a round
//! was is a real number that the caller measures; the library takes it as a
//! `SurpriseReading`, the comparisons of that number that the rules need.

pub mod quality;
pub mod mode;
pub mod round;
pub mod session;
