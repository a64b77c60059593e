//! Expansion of a grouped "pipelines" transform into a flat, ordered graph of
//! elementary transform nodes with explicit input wiring.

pub mod key;
pub mod config;
pub mod graph;
pub mod names;
pub mod expand;
pub mod nesting;
pub mod laws;
pub mod wiring;
pub mod copy;
