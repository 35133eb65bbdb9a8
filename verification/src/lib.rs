//! Discrete core of a legislative voting simulation: the influence graph of
//! members, parties and weighted edges, the course of a simulation run, and
//! the majority rules that turn final votes into an outcome.
//!
//! Numeric attributes (policy vectors, biases, weights, scores) are carried
//! in a scalar type `R` chosen by the caller. The library stores such values
//! and hands them to the caller's update rule, but never computes with them,
//! so everything proved here holds for every choice of `R` and of the rule.
//!
//! - `graph`: the congress, its members, edges and parties.
//! - `loader`: building a congress from a parsed configuration.
//! - `sim`: one run of the simulation.
//! - `dynamics`: what a run does to the scores, and laws about it.
//! - `majority`: votes, tallies and majority rules.
//! - `topology`, `order`: what is taken on trust from `petgraph` and `rand`.

pub mod dynamics;
pub mod graph;
pub mod loader;
pub mod majority;
pub mod order;
pub mod sim;
pub mod topology;
