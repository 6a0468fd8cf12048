//! Directory-synchronisation core: path translation, ignore matching,
//! event batching, task planning, exclusion manifests and the relay hub,
//! each stated over a mathematical model and proved against it.

pub mod collector;
pub mod dispatch;
pub mod exclusions;
pub mod hub;
pub mod matcher;
pub mod pathop;
pub mod paths;
pub mod planner;
pub mod snapshot;
pub mod walker;
