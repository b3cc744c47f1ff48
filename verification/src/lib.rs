//! Beam search over a reward grid.
//!
//! An agent walks a rectangular grid of non-negative rewards for a fixed number of turns and
//! collects the reward of every cell it enters. The crate holds the grid state, two baseline
//! policies, and a beam search that is bounded either by depth or by wall-clock time.

pub mod deadline;
pub mod episode;
pub mod exhaustive;
pub mod frontier;
pub mod grid;
pub mod maze;
pub mod model;
pub mod policy;
pub mod random;
pub mod ranking;
pub mod render;
pub mod search;
pub mod theorems;
pub mod timing;
