//! A tabular Q-learning agent over a small observation space.
//!
//! Observations are discretised onto a bounded integer grid, a dense value
//! table is indexed by grid coordinate and action, and an environment model
//! shapes rewards with per-action cooldowns. Real numbers cross the API as
//! IEEE-754 single-precision bit patterns (`u32`), so that every decision
//! taken here is a statement about integers.

pub mod action;
pub mod reading;
pub mod discretizer;
pub mod environment;
pub mod table;
pub mod agent;
