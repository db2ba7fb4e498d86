//! Continuous-time Markov chain state space of a closed queueing network:
//! a CPU with a two-phase service discipline, two I/O devices and a think-time
//! delay station circulate a fixed number of clients.  The crate enumerates
//! every structurally valid system state, classifies ordered state pairs into
//! transition kinds, computes exact transition rates, and assembles the result
//! as a weighted directed graph with matrix and text exports.

pub mod chain;
pub mod generator;
pub mod graph;
pub mod params;
pub mod rat;
pub mod state;
pub mod text;
pub mod transition;
