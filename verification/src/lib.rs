//! Random password and PIN generation: character classes and pool
//! derivation with ambiguous-character avoidance and user exclusions,
//! mandatory-class seeding, random fill, shuffle, and truncation, over a
//! system random source or a deterministic replay source.

pub mod classes;
pub mod random;
pub mod generate;
