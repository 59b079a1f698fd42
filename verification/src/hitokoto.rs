//! Sayings, kept by category, and the choice of one at random.

pub mod sentence;
