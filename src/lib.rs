//! Benchmarking harness for Sigma detection rules: loads a rule corpus with
//! per-file accounting, evaluates every rule against log events in timed
//! passes, and assembles deterministically ordered reports of each pass.

pub mod external;
pub mod loader;
pub mod order;
pub mod engine;
pub mod report;
