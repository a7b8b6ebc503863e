//! Integer parts of the versioned run configuration: boundaries, update
//! selection, execution settings, and initial basis states.

use vstd::prelude::*;
use vstd::std_specs::convert::FromSpecImpl;

use crate::geometry::BoundaryCondition;
use crate::labels::Spin;

verus! {

/// Configuration schema accepted by this release.
pub const RUN_SCHEMA_VERSION: &'static str = "sse-run-v1";

/// File path named in an I/O failure.
#[verifier::external_type_specification]
#[verifier::external_body]
pub struct ExPathBuf(std::path::PathBuf);

/// Underlying I/O failure.
#[verifier::external_type_specification]
#[verifier::external_body]
pub struct ExIoError(std::io::Error);

/// YAML syntax or type failure.
#[verifier::external_type_specification]
#[verifier::external_body]
pub struct ExYamlError(serde_yaml_ng::Error);

/// Failure while reading, parsing, or validating a run configuration.
#[derive(Debug)]
pub enum ConfigError {
    /// File-system operation failed.
    Io {
        /// File involved in the failed operation.
        path: std::path::PathBuf,
        /// Underlying I/O error.
        source: std::io::Error,
    },
    /// YAML syntax or type mismatch.
    Yaml(serde_yaml_ng::Error),
    /// Schema or physical invariant violation.
    Validation(String),
}

impl ConfigError {
    /// A validation failure carrying `message`.
    pub fn validation(message: &str) -> (error: Self)
        ensures
            error matches ConfigError::Validation(text) && text@ == message@,
    {
        Self::Validation(message.to_owned())
    }
}

/// Serializable boundary condition.
#[derive(Clone, Copy, Debug, PartialEq, Eq, Structural)]
pub enum BoundaryConfig {
    /// Open boundary.
    Open,
    /// Periodic boundary.
    Periodic,
}

/// The boundary condition named by a configuration value.
pub open spec fn boundary_of(value: BoundaryConfig) -> BoundaryCondition {
    match value {
        BoundaryConfig::Open => BoundaryCondition::Open,
        BoundaryConfig::Periodic => BoundaryCondition::Periodic,
    }
}

impl From<BoundaryConfig> for BoundaryCondition {
    fn from(value: BoundaryConfig) -> (condition: Self) {
        match value {
            BoundaryConfig::Open => Self::Open,
            BoundaryConfig::Periodic => Self::Periodic,
        }
    }
}

impl FromSpecImpl<BoundaryConfig> for BoundaryCondition {
    open spec fn obeys_from_spec() -> bool {
        true
    }

    open spec fn from_spec(value: BoundaryConfig) -> BoundaryCondition {
        boundary_of(value)
    }
}

/// Rydberg off-diagonal update selection.
#[derive(Clone, Copy, Debug, PartialEq, Eq, Structural)]
pub enum RydbergUpdate {
    /// Production local world-line update.
    Local,
    /// Global Metropolis-corrected reference update for validation.
    GlobalReference,
}

impl Default for RydbergUpdate {
    fn default() -> (update: Self)
        ensures
            update == RydbergUpdate::Local,
    {
        Self::Local
    }
}

/// Number of complete updates between measurements when none is configured.
pub fn default_sweeps_per_measurement() -> (sweeps: usize)
    ensures
        sweeps == 1,
{
    1
}

/// Parallel execution settings.
#[derive(Clone, Copy, Debug, PartialEq, Eq, Structural)]
pub struct ExecutionSettings {
    /// Number of statistically independent chains.
    pub chains: usize,
    /// Maximum number of concurrent worker threads.
    pub threads: usize,
    /// Master seed from which chain seeds are deterministically derived.
    pub seed: u64,
}

impl Default for ExecutionSettings {
    fn default() -> (settings: Self)
        ensures
            settings == (ExecutionSettings { chains: 4, threads: 1, seed: 0 }),
    {
        Self { chains: 4, threads: 1, seed: 0 }
    }
}

impl ExecutionSettings {
    /// Requires at least one chain and one worker thread.
    pub fn validate(self) -> (result: Result<(), ConfigError>)
        ensures
            self.chains == 0 ==> (result matches Err(ConfigError::Validation(message)) && message@
                == "execution.chains must be greater than zero"@),
            self.chains > 0 && self.threads == 0 ==> (result matches Err(
                ConfigError::Validation(message),
            ) && message@ == "execution.threads must be greater than zero"@),
            self.chains > 0 && self.threads > 0 ==> result is Ok,
    {
        if self.chains == 0 {
            return Err(ConfigError::validation("execution.chains must be greater than zero"));
        }
        if self.threads == 0 {
            return Err(ConfigError::validation("execution.threads must be greater than zero"));
        }
        Ok(())
    }
}

/// Shared initial basis-state prescription.
#[derive(Clone, Copy, Debug, PartialEq, Eq, Structural)]
pub enum InitialState {
    /// Every site starts in [`Spin::Down`].
    Down,
    /// Every site starts in [`Spin::Up`].
    Up,
    /// Even sites start up and odd sites start down.
    Alternating,
}

impl Default for InitialState {
    fn default() -> (state: Self)
        ensures
            state == InitialState::Down,
    {
        Self::Down
    }
}

/// The spin that `prescription` assigns to `site`.
pub open spec fn initial_spin(prescription: InitialState, site: int) -> Spin {
    match prescription {
        InitialState::Down => Spin::Down,
        InitialState::Up => Spin::Up,
        InitialState::Alternating => if site % 2 == 0 {
            Spin::Up
        } else {
            Spin::Down
        },
    }
}

impl InitialState {
    /// Materializes one spin per site.
    ///
    /// Returns an error for an empty model.
    pub fn build(self, num_sites: usize) -> (result: Result<Vec<Spin>, ConfigError>)
        ensures
            num_sites == 0 ==> (result matches Err(ConfigError::Validation(message)) && message@
                == "initial state requires at least one site"@),
            num_sites > 0 ==> (result matches Ok(spins) && spins@ == Seq::new(
                num_sites as nat,
                |site: int| initial_spin(self, site),
            )),
    {
        if num_sites == 0 {
            return Err(ConfigError::validation("initial state requires at least one site"));
        }
        let mut spins: Vec<Spin> = Vec::with_capacity(num_sites);
        let mut site: usize = 0;
        while site < num_sites
            invariant
                site <= num_sites,
                spins@ =~= Seq::new(site as nat, |k: int| initial_spin(self, k)),
            decreases num_sites - site,
        {
            let spin = match self {
                Self::Down => Spin::Down,
                Self::Up => Spin::Up,
                Self::Alternating => if site % 2 == 0 {
                    Spin::Up
                } else {
                    Spin::Down
                },
            };
            spins.push(spin);
            site += 1;
        }
        Ok(spins)
    }
}

} // verus!
