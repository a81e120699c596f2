//! The passes over the finished scope graph.

pub mod maker;
pub mod plan;
