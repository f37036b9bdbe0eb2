//! A preference tournament over a pool of candidates.
//!
//! Two candidates are put side by side, one of them is preferred, and the
//! other leaves the tournament. This repeats until a single candidate is
//! left. The state of a tournament is its pool together with the log of
//! decisions taken so far; everything else is derived from those two.

pub mod catalog;
pub mod chooser;
pub mod engine;
pub mod filtering;
pub mod mock;
pub mod model;
pub mod theorems;
pub mod tournament;
