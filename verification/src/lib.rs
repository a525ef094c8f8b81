//! A verified model of the 3x3x3 twisty puzzle: coordinate-level state
//! (corner/edge permutations plus orientation vectors), the twelve face-turn
//! operators, face rendering, and a bounded iterative-deepening solver.

pub mod cube;
pub mod solver;
