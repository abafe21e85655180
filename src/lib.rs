//! Periodicity and rotation checks on strings, taken over their UTF-8 bytes.

pub mod period;
pub mod rotation;
