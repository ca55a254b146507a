//! Verified core of the SHBT anyon simulator: braid words, fusion trees,
//! stabilizer bookkeeping, the OpenQASM front end and the exact parts of the
//! boundary arithmetic.

pub mod braid;
pub mod error;
pub mod rewrite;
pub mod compiler;
pub mod runner;
pub mod text;
pub mod qasm;
pub mod projection;
pub mod decimal;
pub mod worldline;
pub mod tracker;
pub mod plan;
pub mod stabilizer;
pub mod boundary;
pub mod mesh;
pub mod engine;
pub mod racah;
pub mod baryogenesis;
pub mod causal;
