//! Declares the vocabulary of a tabletop game — piece kinds and board
//! positions — compiles a raw declaration into a collision-checked
//! specification, and maintains a live record of which pieces occupy which
//! positions during play.

pub mod coords;
pub mod defs;
pub mod error;
pub mod lookup;
pub mod specs;
pub mod state;
pub mod suffix;
