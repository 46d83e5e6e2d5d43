//! Verified core of an AI operating system's runtime layer: the tool broker
//! (registry, input validation, execution records), the deny-by-default policy
//! engine, scoped agent memory, model selection and the safety monitor.

pub mod search;
pub mod text;
pub mod json;
pub mod validation;
pub mod policy;
pub mod clock;
pub mod safety;
pub mod memory;
pub mod registry;
pub mod executor;
pub mod model_runtime;
