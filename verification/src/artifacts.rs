//! Versioned, machine-readable run records and the combined measurement
//! table.

use vstd::prelude::*;
use vstd::string::StringExecFns;

use crate::text::{decimal, push_decimal};

verus! {

/// Version tag of the artifact schema.
pub const ARTIFACT_SCHEMA_VERSION: &'static str = "sse-artifacts-v2";

/// Lifecycle state of a run.
#[derive(Clone, Copy, Debug, PartialEq, Eq, Structural)]
pub enum RunStatus {
    /// At least one requested chain has not completed.
    Running,
    /// Every chain and aggregate artifact completed successfully.
    Complete,
    /// The most recent execution attempt returned an error.
    Failed,
}

/// Top-level provenance and lifecycle record.
#[derive(Clone, Debug)]
pub struct RunManifest {
    /// Artifact format discriminator.
    pub artifact_schema_version: String,
    /// Input configuration schema discriminator.
    pub run_schema_version: String,
    /// Human-readable run name.
    pub name: String,
    /// Model family, currently `tfim` or `rydberg`.
    pub model: String,
    /// Crate version used to execute the run.
    pub software_version: String,
    /// Source revision embedded at build time, when available.
    pub git_revision: Option<String>,
    /// Current lifecycle state.
    pub status: RunStatus,
    /// Unix timestamp of initial output-directory creation.
    pub started_unix_seconds: u64,
    /// Unix timestamp of successful completion.
    pub completed_unix_seconds: Option<u64>,
    /// Number of execution attempts, including resumes.
    pub attempts: u32,
    /// Requested number of independent chains.
    pub requested_chains: usize,
    /// Number of durable completed-chain artifacts.
    pub completed_chains: usize,
    /// Last execution error, if the run is failed.
    pub error: Option<String>,
    /// Relative paths of aggregate artifacts present after completion.
    pub files: Vec<String>,
}

/// The aggregate artifacts listed by a completed run, in order.
pub open spec fn completed_files() -> Seq<Seq<char>> {
    seq![
        "config.resolved.yaml"@,
        "checkpoint.json"@,
        "measurements.csv"@,
        "summary.json"@,
    ]
}

impl RunManifest {
    /// The provenance fields, which no lifecycle step changes.
    pub open spec fn same_provenance(self, other: RunManifest) -> bool {
        &&& self.artifact_schema_version@ == other.artifact_schema_version@
        &&& self.run_schema_version@ == other.run_schema_version@
        &&& self.name@ == other.name@
        &&& self.model@ == other.model@
        &&& self.software_version@ == other.software_version@
        &&& self.git_revision == other.git_revision
        &&& self.started_unix_seconds == other.started_unix_seconds
        &&& self.requested_chains == other.requested_chains
    }

    /// Marks a new execution attempt: the run is running again, with no
    /// completion time or error, one more attempt (saturating), and the
    /// number of chains already durable.
    pub fn begin_attempt(&mut self, completed_chains: usize)
        ensures
            final(self).same_provenance(*old(self)),
            final(self).status == RunStatus::Running,
            final(self).completed_unix_seconds is None,
            final(self).error is None,
            final(self).attempts == if old(self).attempts < u32::MAX {
                (old(self).attempts + 1) as u32
            } else {
                old(self).attempts
            },
            final(self).completed_chains == completed_chains,
            final(self).files@ == old(self).files@,
    {
        self.status = RunStatus::Running;
        self.completed_unix_seconds = None;
        self.error = None;
        self.attempts = self.attempts.saturating_add(1);
        self.completed_chains = completed_chains;
    }

    /// Records a successful attempt: every one of `chains` chains completed
    /// at `completed_unix_seconds`, and the aggregate artifacts are listed.
    pub fn complete(&mut self, chains: usize, completed_unix_seconds: u64)
        ensures
            final(self).same_provenance(*old(self)),
            final(self).status == RunStatus::Complete,
            final(self).completed_unix_seconds == Some(completed_unix_seconds),
            final(self).error == old(self).error,
            final(self).attempts == old(self).attempts,
            final(self).completed_chains == chains,
            final(self).files@.len() == completed_files().len(),
            forall|k: int|
                0 <= k < completed_files().len() ==> #[trigger] final(self).files@[k]@
                    == completed_files()[k],
    {
        self.status = RunStatus::Complete;
        self.completed_unix_seconds = Some(completed_unix_seconds);
        self.completed_chains = chains;
        let mut files: Vec<String> = Vec::new();
        files.push(String::from_str("config.resolved.yaml"));
        files.push(String::from_str("checkpoint.json"));
        files.push(String::from_str("measurements.csv"));
        files.push(String::from_str("summary.json"));
        self.files = files;
    }

    /// Records a failed attempt with the chains that are durable and the
    /// error text.
    pub fn fail(&mut self, completed_chains: usize, error: String)
        ensures
            final(self).same_provenance(*old(self)),
            final(self).status == RunStatus::Failed,
            final(self).completed_unix_seconds == old(self).completed_unix_seconds,
            final(self).error == Some(error),
            final(self).attempts == old(self).attempts,
            final(self).completed_chains == completed_chains,
            final(self).files@ == old(self).files@,
    {
        self.status = RunStatus::Failed;
        self.completed_chains = completed_chains;
        self.error = Some(error);
    }
}

/// Acceptance counts stored for one chain.
#[derive(Clone, Copy, Debug, PartialEq, Eq, Structural)]
pub struct UpdateStatistics {
    /// Proposed diagonal insertions.
    pub insertions_proposed: usize,
    /// Accepted diagonal insertions.
    pub insertions_accepted: usize,
    /// Proposed diagonal removals.
    pub removals_proposed: usize,
    /// Accepted diagonal removals.
    pub removals_accepted: usize,
    /// Identified clusters or world lines.
    pub clusters: usize,
    /// Flipped clusters or world lines.
    pub flipped_clusters: usize,
    /// Toggled vertices.
    pub vertices_toggled: usize,
    /// Metropolis-corrected proposals.
    pub proposals: usize,
    /// Accepted corrected proposals.
    pub proposals_accepted: usize,
}

/// Completed chain indices recorded after aggregate assembly.
#[derive(Clone, Debug)]
pub struct CheckpointIndex {
    /// Artifact format discriminator.
    pub artifact_schema_version: String,
    /// Completed chain indices in ascending order.
    pub completed_chains: Vec<usize>,
}

/// Column header of the combined measurement table.
pub open spec fn measurements_header() -> Seq<char> {
    "chain_index,measurement_index,expansion_order\n"@
}

/// One row of the combined measurement table.
pub open spec fn measurement_row(chain_index: usize, measurement_index: nat, expansion_order: usize) -> Seq<
    char,
> {
    decimal(chain_index as nat) + ","@ + decimal(measurement_index) + ","@ + decimal(
        expansion_order as nat,
    ) + "\n"@
}

/// Rows for the first `count` measurements of one chain.
pub open spec fn chain_rows(chain_index: usize, orders: Seq<usize>, count: int) -> Seq<char>
    decreases count,
{
    if count <= 0 {
        Seq::empty()
    } else {
        chain_rows(chain_index, orders, count - 1) + measurement_row(
            chain_index,
            (count - 1) as nat,
            orders[count - 1],
        )
    }
}

/// Rows for the first `count` chains, in order.
pub open spec fn table_rows(chains: Seq<(usize, Seq<usize>)>, count: int) -> Seq<char>
    decreases count,
{
    if count <= 0 {
        Seq::empty()
    } else {
        table_rows(chains, count - 1) + chain_rows(
            chains[count - 1].0,
            chains[count - 1].1,
            chains[count - 1].1.len() as int,
        )
    }
}

/// The text of `measurements.csv`: a header and one row per recorded
/// measurement, with chains in the given order and measurements in sampling
/// order.
pub open spec fn measurements_table(chains: Seq<(usize, Seq<usize>)>) -> Seq<char> {
    measurements_header() + table_rows(chains, chains.len() as int)
}

/// Builds the combined measurement table from `(chain_index, orders)` series.
pub fn measurements_csv(chains: &[(usize, Vec<usize>)]) -> (text: String)
    ensures
        text@ == measurements_table(
            chains@.map_values(|chain: (usize, Vec<usize>)| (chain.0, chain.1@)),
        ),
{
    let ghost series = chains@.map_values(|chain: (usize, Vec<usize>)| (chain.0, chain.1@));
    let mut text = String::from_str("chain_index,measurement_index,expansion_order\n");
    proof {
        reveal_strlit("chain_index,measurement_index,expansion_order\n");
    }
    let mut chain: usize = 0;
    while chain < chains.len()
        invariant
            chain <= chains@.len(),
            series == chains@.map_values(|chain: (usize, Vec<usize>)| (chain.0, chain.1@)),
            text@ == measurements_header() + table_rows(series, chain as int),
        decreases chains@.len() - chain,
    {
        let chain_index = chains[chain].0;
        let orders = &chains[chain].1;
        let ghost prefix = text@;
        let mut measurement: usize = 0;
        while measurement < orders.len()
            invariant
                measurement <= orders@.len(),
                text@ == prefix + chain_rows(chain_index, orders@, measurement as int),
            decreases orders@.len() - measurement,
        {
            push_decimal(&mut text, chain_index);
            text.append(",");
            push_decimal(&mut text, measurement);
            text.append(",");
            push_decimal(&mut text, orders[measurement]);
            text.append("\n");
            proof {
                assert(text@ =~= prefix + chain_rows(chain_index, orders@, measurement + 1));
            }
            measurement += 1;
        }
        proof {
            assert(series[chain as int] == (chain_index, orders@));
            assert(text@ =~= measurements_header() + table_rows(series, chain + 1));
        }
        chain += 1;
    }
    text
}

} // verus!
