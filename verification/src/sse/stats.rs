//! Update counters, sweep schedules, and run records.

use vstd::prelude::*;

verus! {

/// Proposal and acceptance counts from diagonal insertion/removal sweeps.
#[derive(Clone, Copy, Debug, Default, PartialEq, Eq, Structural)]
pub struct DiagonalSweepStats {
    /// Identity positions considered for insertion.
    pub insertions_proposed: usize,
    /// Proposed insertions accepted by the Metropolis rule.
    pub insertions_accepted: usize,
    /// Diagonal operators considered for removal.
    pub removals_proposed: usize,
    /// Proposed removals accepted by the Metropolis rule.
    pub removals_accepted: usize,
}

/// Structural and acceptance counts from cluster or world-line updates.
#[derive(Clone, Copy, Debug, Default, PartialEq, Eq, Structural)]
pub struct ClusterSweepStats {
    /// Number of connected components identified by a cluster update.
    pub clusters: usize,
    /// Number of components or whole world lines selected for flipping.
    pub flipped_clusters: usize,
    /// Number of diagonal/off-diagonal partner vertices toggled.
    pub vertices_toggled: usize,
    /// Number of Metropolis-corrected proposals attempted.
    pub proposals: usize,
    /// Number of corrected proposals accepted.
    pub proposals_accepted: usize,
}

impl DiagonalSweepStats {
    /// Adds every counter of `other` to this record.
    pub fn add_assign(&mut self, other: Self)
        requires
            old(self).insertions_proposed + other.insertions_proposed <= usize::MAX,
            old(self).insertions_accepted + other.insertions_accepted <= usize::MAX,
            old(self).removals_proposed + other.removals_proposed <= usize::MAX,
            old(self).removals_accepted + other.removals_accepted <= usize::MAX,
        ensures
            final(self).insertions_proposed == old(self).insertions_proposed
                + other.insertions_proposed,
            final(self).insertions_accepted == old(self).insertions_accepted
                + other.insertions_accepted,
            final(self).removals_proposed == old(self).removals_proposed + other.removals_proposed,
            final(self).removals_accepted == old(self).removals_accepted + other.removals_accepted,
    {
        self.insertions_proposed = self.insertions_proposed + other.insertions_proposed;
        self.insertions_accepted = self.insertions_accepted + other.insertions_accepted;
        self.removals_proposed = self.removals_proposed + other.removals_proposed;
        self.removals_accepted = self.removals_accepted + other.removals_accepted;
    }
}

impl ClusterSweepStats {
    /// Adds every counter of `other` to this record.
    pub fn add_assign(&mut self, other: Self)
        requires
            old(self).clusters + other.clusters <= usize::MAX,
            old(self).flipped_clusters + other.flipped_clusters <= usize::MAX,
            old(self).vertices_toggled + other.vertices_toggled <= usize::MAX,
            old(self).proposals + other.proposals <= usize::MAX,
            old(self).proposals_accepted + other.proposals_accepted <= usize::MAX,
        ensures
            final(self).clusters == old(self).clusters + other.clusters,
            final(self).flipped_clusters == old(self).flipped_clusters + other.flipped_clusters,
            final(self).vertices_toggled == old(self).vertices_toggled + other.vertices_toggled,
            final(self).proposals == old(self).proposals + other.proposals,
            final(self).proposals_accepted == old(self).proposals_accepted
                + other.proposals_accepted,
    {
        self.clusters = self.clusters + other.clusters;
        self.flipped_clusters = self.flipped_clusters + other.flipped_clusters;
        self.vertices_toggled = self.vertices_toggled + other.vertices_toggled;
        self.proposals = self.proposals + other.proposals;
        self.proposals_accepted = self.proposals_accepted + other.proposals_accepted;
    }
}

/// Sweep counts controlling thermalization and measurement.
#[derive(Clone, Copy, Debug)]
pub struct SimulationConfig {
    /// Complete update sweeps discarded before measurement.
    pub thermalization_sweeps: usize,
    /// Number of expansion-order measurements to accumulate.
    pub measurement_sweeps: usize,
    /// Complete update sweeps performed between consecutive measurements.
    pub sweeps_per_measurement: usize,
}

impl Default for SimulationConfig {
    fn default() -> (config: Self)
        ensures
            config.thermalization_sweeps == 1_000,
            config.measurement_sweeps == 10_000,
            config.sweeps_per_measurement == 1,
    {
        Self { thermalization_sweeps: 1_000, measurement_sweeps: 10_000, sweeps_per_measurement: 1 }
    }
}

/// One recorded expansion-order sample from a chain.
#[derive(Clone, Copy, Debug, PartialEq, Eq, Structural)]
pub struct MeasurementRecord {
    /// Zero-based position in the measurement series.
    pub measurement_index: usize,
    /// Number of non-identity operators at this measurement.
    pub expansion_order: usize,
}

/// Wall-clock and work-count breakdown for a simulation run.
///
/// Update durations include both thermalization and measurement phases. The
/// phase durations are wall times and therefore are not expected to equal the
/// sum of individual categories exactly.
#[derive(Clone, Copy, Debug, Default, PartialEq, Eq)]
pub struct RunTiming {
    /// Total elapsed run time.
    pub total: std::time::Duration,
    /// Elapsed thermalization phase time.
    pub thermalization: std::time::Duration,
    /// Elapsed measurement phase time.
    pub measurement: std::time::Duration,
    /// Time spent in diagonal insertion/removal updates.
    pub diagonal_updates: std::time::Duration,
    /// Time spent in cluster or world-line updates.
    pub cluster_updates: std::time::Duration,
    /// Time spent recording expansion-order measurements.
    pub accumulation: std::time::Duration,
    /// Number of complete update sweeps during thermalization.
    pub thermalization_sweeps: u64,
    /// Number of complete update sweeps during the measurement phase.
    pub measurement_sweeps: u64,
    /// Number of accumulated measurements.
    pub measurements: u64,
}

} // verus!
