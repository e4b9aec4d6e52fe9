//! Pack lock validation, flow resolve bookkeeping and runtime policy for Greentic packs.

pub mod text;
pub mod pack_lock;
pub mod flow_resolve;
pub mod runtime;
pub mod telemetry;
pub mod config;
