//! Test-data generator for a feature-flag service: fabricates feature
//! definitions with randomized gradual-rollout strategies and plans the
//! sequence of administrative API requests that uploads them.

pub mod config;
pub mod text;
pub mod model;
pub mod json;
pub mod urls;
mod random;
pub mod idgen;
pub mod generate;
pub mod plan;
pub mod present;
pub mod decode;
