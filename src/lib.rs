//! The orbital trajectory core of a planetary simulation: classifying
//! positions into the quarters around the central mass, detecting when a
//! traced body has gone once round, turning its trajectory into a short closed
//! polyline, and the round-robin order in which bodies get their paths rebuilt.

pub mod geometry;
pub mod path;
pub mod quadrant;
pub mod schedule;
pub mod settings;
pub mod trace;
