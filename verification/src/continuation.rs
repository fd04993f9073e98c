//! Splitting a trace that is too long for one proof into a chain of slices.

pub mod slice;
