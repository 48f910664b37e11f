//! Measurement and persistence engine of an IPv4 liveness sweep: the subnet
//! model, the per-address outcome codec, the /16 block codec, the prober's
//! decisions, the sweep planner and the master/worker message rules.
pub mod addr;
pub mod subnet;
pub mod text;
pub mod notation;
pub mod outcome;
pub mod results;
pub mod codec;
pub mod file;
pub mod stats;
pub mod prober;
pub mod progress;
pub mod planner;
pub mod config;
pub mod proto;
