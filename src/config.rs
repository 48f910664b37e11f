//! Configuration of the master: where its workers run and how they probe.
use vstd::prelude::*;

verus! {

/// The master's configuration.
#[derive(Debug, Clone, Copy, PartialEq, Eq, Structural)]
pub struct Config {
    pub workers: WorkerConfig,
}

/// Where the workers run.
#[derive(Debug, Clone, Copy, PartialEq, Eq, Structural)]
pub enum WorkerConfig {
    Local(LocalWorkerConfig),
    Remote,
}

/// Workers spawned on this machine: how many, and the permit pool size, retry
/// limit and per-attempt timeout (milliseconds) each is given.
#[derive(Debug, Clone, Copy, PartialEq, Eq, Structural)]
pub struct LocalWorkerConfig {
    pub count: u16,
    pub max_connections: u16,
    pub retry_limit: u16,
    pub timeout: u16,
}

/// Why a configuration cannot be run.
#[derive(Debug, Clone, Copy, PartialEq, Eq, Structural)]
pub enum ConfigProblem {
    /// Remote workers are not supported.
    RemoteWorkers,
    /// A probe needs at least one attempt.
    NoAttempts,
}

impl Config {
    /// The local worker settings, if this configuration can be run.
    pub fn local_workers(&self) -> (r: Result<LocalWorkerConfig, ConfigProblem>)
        ensures
            match self.workers {
                WorkerConfig::Remote => r == Err::<LocalWorkerConfig, ConfigProblem>(ConfigProblem::RemoteWorkers),
                WorkerConfig::Local(l) => if l.retry_limit == 0 {
                    r == Err::<LocalWorkerConfig, ConfigProblem>(ConfigProblem::NoAttempts)
                } else {
                    r == Ok::<LocalWorkerConfig, ConfigProblem>(l)
                },
            },
    {
        match self.workers {
            WorkerConfig::Remote => Err(ConfigProblem::RemoteWorkers),
            WorkerConfig::Local(l) => if l.retry_limit == 0 {
                Err(ConfigProblem::NoAttempts)
            } else {
                Ok(l)
            },
        }
    }
}

} // verus!
