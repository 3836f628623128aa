//! A coverage-guided, mutation-based fuzzing engine for in-process
//! byte-buffer targets.
//!
//! The engine executes nothing itself. It is told what each execution of
//! the target gave, and decides what that means and what to execute next:
//!
//! - [`coverage`] turns raw edge counters into coverage vectors;
//! - [`feedback`] and [`outcome`] hold the two oracles, which judge whether
//!   an execution is interesting and whether it is a finding;
//! - [`corpus`] holds the active corpus and the solution store;
//! - [`power`], [`minimizer`], [`scheduler`] and [`weighted`] pick the
//!   corpus entry to work on;
//! - [`operators`], [`tokens`], [`adaptive`] and [`replacement`] make new
//!   inputs from it;
//! - [`stages`] orders the work on one entry, [`engine`] takes each executed
//!   input into the stores, and [`fuzzer`] ties both into one loop;
//! - [`orchestrator`], [`broker`], [`layout`] and [`text`] hold what a
//!   campaign of several clients decides, and how its stores are named.
//!
//! Random draws, the primitive mutations, the checks on how an execution
//! ended and the stable names of inputs come from `libafl`. Every function
//! that calls into it says in its documentation what is taken on trust.

pub mod adaptive;
pub mod broker;
pub mod corpus;
pub mod coverage;
pub mod engine;
pub mod feedback;
pub mod fuzzer;
pub mod layout;
pub mod minimizer;
pub mod operators;
pub mod orchestrator;
pub mod outcome;
pub mod power;
pub mod random;
pub mod replacement;
pub mod scheduler;
pub mod stages;
pub mod text;
pub mod tokens;
pub mod weighted;
