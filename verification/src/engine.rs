//! A resumable single-chain driver over the qslib SSE sampler.
//!
//! Each unit of work grows the operator-string headroom, performs one diagonal
//! sweep, and then one family-selected cluster or world-line sweep.
//! Thermalization runs first; each measurement records the expansion order
//! after `sweeps_per_measurement` sweeps. The schedule depends only on the
//! sweep budget, never on how it is split across calls.

use vstd::prelude::*;

use qslib::sse::{LocalSseModel, SseSampler};
use rand_chacha::ChaCha20Rng;

use vstd::string::StringExecFns;

use crate::text::{hex_byte, push_hex_byte};

verus! {

/// Sign-safe local SSE model of the qslib backend.
#[verifier::external_type_specification]
#[verifier::external_body]
pub struct ExLocalSseModel(qslib::sse::LocalSseModel);

/// ChaCha20 stream generator driving one chain.
#[verifier::external_type_specification]
#[verifier::external_body]
pub struct ExChaCha20Rng(rand_chacha::ChaCha20Rng);

/// The qslib adaptive-cutoff SSE sampler.
#[verifier::external_type_specification]
#[verifier::external_body]
#[verifier::reject_recursive_types(M)]
#[verifier::reject_recursive_types(R)]
pub struct ExSseSampler<M, R>(qslib::sse::SseSampler<M, R>);

/// The sampler type owned by a chain.
pub type ChainSampler = SseSampler<LocalSseModel, ChaCha20Rng>;

/// Execution phase reported to the caller.
#[derive(Clone, Copy, Debug, Eq, PartialEq, Structural)]
pub enum Phase {
    /// Discarding pre-measurement sweeps.
    Thermalization,
    /// Recording expansion-order measurements.
    Measurement,
    /// All configured measurements are recorded.
    Complete,
}

/// Update family applied after the diagonal sweep of every unit of work.
#[derive(Clone, Copy, Debug, Eq, PartialEq, Structural)]
pub enum UpdateScheme {
    /// Transverse-field Ising linked-cluster update.
    TfimCluster,
    /// Site-local Rydberg world-line Metropolis moves.
    RydbergLocal,
    /// Metropolis-corrected global Rydberg cluster proposal.
    RydbergGlobalReference,
}

/// Cumulative diagonal update statistics of a chain.
#[derive(Clone, Copy, Debug, Default, PartialEq, Eq, Structural)]
pub struct DiagonalStats {
    /// Proposed insertions.
    pub insertions_proposed: usize,
    /// Accepted insertions.
    pub insertions_accepted: usize,
    /// Proposed removals.
    pub removals_proposed: usize,
    /// Accepted removals.
    pub removals_accepted: usize,
}

/// Cumulative cluster or world-line update statistics of a chain.
#[derive(Clone, Copy, Debug, Default, PartialEq, Eq, Structural)]
pub struct ClusterStats {
    /// Connected components identified.
    pub clusters: usize,
    /// Components flipped.
    pub flipped_clusters: usize,
    /// Partner vertices toggled.
    pub vertices_toggled: usize,
    /// Proposals attempted.
    pub proposals: usize,
    /// Proposals accepted.
    pub proposals_accepted: usize,
}

/// Incremental result of one `advance` call.
#[derive(Clone, Debug)]
pub struct AdvanceReport {
    /// Phase after this batch.
    pub phase: Phase,
    /// Thermalization sweeps still outstanding.
    pub thermalization_remaining: usize,
    /// Measurements still outstanding.
    pub measurements_remaining: usize,
    /// Expansion orders recorded during this batch, in order.
    pub orders: Vec<usize>,
    /// Number of lattice sites.
    pub num_sites: usize,
    /// Cumulative diagonal update statistics.
    pub diagonal: DiagonalStats,
    /// Cumulative cluster/world-line update statistics.
    pub clusters: ClusterStats,
}

/// Whether adding one sweep's diagonal counts to cumulative ones stays
/// within `usize` in every counter.
pub open spec fn diagonal_sum_fits(total: DiagonalStats, sweep: DiagonalStats) -> bool {
    &&& total.insertions_proposed + sweep.insertions_proposed <= usize::MAX
    &&& total.insertions_accepted + sweep.insertions_accepted <= usize::MAX
    &&& total.removals_proposed + sweep.removals_proposed <= usize::MAX
    &&& total.removals_accepted + sweep.removals_accepted <= usize::MAX
}

/// Cumulative diagonal counts after adding one sweep's counts.
pub open spec fn diagonal_sum(total: DiagonalStats, sweep: DiagonalStats) -> DiagonalStats {
    DiagonalStats {
        insertions_proposed: (total.insertions_proposed + sweep.insertions_proposed) as usize,
        insertions_accepted: (total.insertions_accepted + sweep.insertions_accepted) as usize,
        removals_proposed: (total.removals_proposed + sweep.removals_proposed) as usize,
        removals_accepted: (total.removals_accepted + sweep.removals_accepted) as usize,
    }
}

/// Whether adding one sweep's cluster counts to cumulative ones stays within
/// `usize` in every counter.
pub open spec fn cluster_sum_fits(total: ClusterStats, sweep: ClusterStats) -> bool {
    &&& total.clusters + sweep.clusters <= usize::MAX
    &&& total.flipped_clusters + sweep.flipped_clusters <= usize::MAX
    &&& total.vertices_toggled + sweep.vertices_toggled <= usize::MAX
    &&& total.proposals + sweep.proposals <= usize::MAX
    &&& total.proposals_accepted + sweep.proposals_accepted <= usize::MAX
}

/// Cumulative cluster counts after adding one sweep's counts.
pub open spec fn cluster_sum(total: ClusterStats, sweep: ClusterStats) -> ClusterStats {
    ClusterStats {
        clusters: (total.clusters + sweep.clusters) as usize,
        flipped_clusters: (total.flipped_clusters + sweep.flipped_clusters) as usize,
        vertices_toggled: (total.vertices_toggled + sweep.vertices_toggled) as usize,
        proposals: (total.proposals + sweep.proposals) as usize,
        proposals_accepted: (total.proposals_accepted + sweep.proposals_accepted) as usize,
    }
}

/// What the counts of one successful cluster or world-line sweep of
/// `scheme` look like.
pub open spec fn cluster_sweep_shape(scheme: UpdateScheme, stats: ClusterStats) -> bool {
    match scheme {
        UpdateScheme::TfimCluster => {
            &&& stats.proposals == 1
            &&& stats.proposals_accepted == 1
            &&& 1 <= stats.clusters
            &&& stats.flipped_clusters <= stats.clusters
        },
        UpdateScheme::RydbergGlobalReference => {
            &&& stats.proposals == 1
            &&& 1 <= stats.clusters
            &&& stats.proposals_accepted <= 1
            &&& stats.flipped_clusters <= stats.clusters
            &&& stats.proposals_accepted == 0 ==> stats.flipped_clusters == 0
                && stats.vertices_toggled == 0
        },
        UpdateScheme::RydbergLocal => {
            &&& stats.clusters == 0
            &&& stats.proposals_accepted <= stats.proposals
            &&& stats.vertices_toggled % 2 == 0
            &&& stats.flipped_clusters + stats.vertices_toggled / 2 == stats.proposals_accepted
        },
    }
}

/// How the cumulative cluster counters of a chain running `scheme` grow over
/// `sweeps` successful sweeps: the cluster schemes make one proposal per
/// sweep (the transverse-field Ising update accepting each) and flip only
/// clusters they counted; the local world-line scheme counts no clusters and
/// accepts no more moves than it proposes.
pub open spec fn cluster_totals_grew(
    scheme: UpdateScheme,
    before: ClusterStats,
    after: ClusterStats,
    sweeps: nat,
) -> bool {
    match scheme {
        UpdateScheme::TfimCluster => {
            &&& after.proposals == before.proposals + sweeps
            &&& after.proposals_accepted == before.proposals_accepted + sweeps
            &&& after.clusters >= before.clusters + sweeps
            &&& after.flipped_clusters - before.flipped_clusters <= after.clusters - before.clusters
        },
        UpdateScheme::RydbergGlobalReference => {
            &&& after.proposals == before.proposals + sweeps
            &&& after.proposals_accepted - before.proposals_accepted <= sweeps
            &&& after.clusters >= before.clusters + sweeps
            &&& after.flipped_clusters - before.flipped_clusters <= after.clusters - before.clusters
        },
        UpdateScheme::RydbergLocal => {
            &&& after.clusters == before.clusters
            &&& after.proposals_accepted - before.proposals_accepted <= after.proposals
                - before.proposals
        },
    }
}

/// The text of qslib's refusal to run the transverse-field Ising cluster
/// update on a model that does not support it.
pub open spec fn unsupported_cluster_update_text() -> Seq<char> {
    "the model does not support the TFIM cluster update"@
}

/// No cumulative diagonal counter went down.
pub open spec fn diagonal_grown(before: DiagonalStats, after: DiagonalStats) -> bool {
    &&& before.insertions_proposed <= after.insertions_proposed
    &&& before.insertions_accepted <= after.insertions_accepted
    &&& before.removals_proposed <= after.removals_proposed
    &&& before.removals_accepted <= after.removals_accepted
}

/// No cumulative cluster counter went down.
pub open spec fn clusters_grown(before: ClusterStats, after: ClusterStats) -> bool {
    &&& before.clusters <= after.clusters
    &&& before.flipped_clusters <= after.flipped_clusters
    &&& before.vertices_toggled <= after.vertices_toggled
    &&& before.proposals <= after.proposals
    &&& before.proposals_accepted <= after.proposals_accepted
}

/// Diagonal counts that accept no more insertions or removals than they
/// propose.
pub open spec fn diagonal_consistent(stats: DiagonalStats) -> bool {
    &&& stats.insertions_accepted <= stats.insertions_proposed
    &&& stats.removals_accepted <= stats.removals_proposed
}

/// Counters of a chain's sweep schedule.
pub struct Schedule {
    /// Thermalization sweeps still outstanding.
    pub thermalization_remaining: nat,
    /// Measurements still outstanding.
    pub measurements_remaining: nat,
    /// Sweeps performed toward the next measurement.
    pub sweeps_into_measurement: nat,
    /// Measurements recorded so far.
    pub recorded: nat,
    /// Sweeps performed so far.
    pub sweeps: nat,
}

/// Whether any sweep remains in a schedule.
pub open spec fn schedule_complete(schedule: Schedule) -> bool {
    schedule.thermalization_remaining == 0 && schedule.measurements_remaining == 0
}

/// The schedule after one more sweep.
pub open spec fn schedule_step(schedule: Schedule, sweeps_per_measurement: nat) -> Schedule {
    if schedule.thermalization_remaining > 0 {
        Schedule {
            thermalization_remaining: (schedule.thermalization_remaining - 1) as nat,
            sweeps: schedule.sweeps + 1,
            ..schedule
        }
    } else if schedule.sweeps_into_measurement + 1 == sweeps_per_measurement {
        Schedule {
            measurements_remaining: (schedule.measurements_remaining - 1) as nat,
            sweeps_into_measurement: 0,
            recorded: schedule.recorded + 1,
            sweeps: schedule.sweeps + 1,
            ..schedule
        }
    } else {
        Schedule {
            sweeps_into_measurement: schedule.sweeps_into_measurement + 1,
            sweeps: schedule.sweeps + 1,
            ..schedule
        }
    }
}

/// The schedule after spending up to `budget` sweeps; sweeps stop early once
/// every measurement is recorded.
pub open spec fn schedule_after(schedule: Schedule, sweeps_per_measurement: nat, budget: nat) -> Schedule
    decreases budget,
{
    if budget == 0 || schedule_complete(schedule) {
        schedule
    } else {
        schedule_after(
            schedule_step(schedule, sweeps_per_measurement),
            sweeps_per_measurement,
            (budget - 1) as nat,
        )
    }
}

/// Spending a budget in two batches leaves the same schedule as spending
/// their sum at once.
pub proof fn lemma_batching_does_not_change_the_schedule(
    schedule: Schedule,
    sweeps_per_measurement: nat,
    first: nat,
    second: nat,
)
    ensures
        schedule_after(
            schedule_after(schedule, sweeps_per_measurement, first),
            sweeps_per_measurement,
            second,
        ) == schedule_after(schedule, sweeps_per_measurement, first + second),
    decreases first,
{
    if first > 0 && !schedule_complete(schedule) {
        lemma_batching_does_not_change_the_schedule(
            schedule_step(schedule, sweeps_per_measurement),
            sweeps_per_measurement,
            (first - 1) as nat,
            second,
        );
    } else if first == 0 {
    } else {
        lemma_complete_is_final(schedule, sweeps_per_measurement, second);
        lemma_complete_is_final(schedule, sweeps_per_measurement, first + second);
    }
}

proof fn lemma_complete_is_final(schedule: Schedule, sweeps_per_measurement: nat, budget: nat)
    requires
        schedule_complete(schedule),
    ensures
        schedule_after(schedule, sweeps_per_measurement, budget) == schedule,
{
}

/// A schedule with enough budget records every outstanding measurement.
pub proof fn lemma_schedule_completes(schedule: Schedule, sweeps_per_measurement: nat, budget: nat)
    requires
        sweeps_per_measurement > 0,
        schedule.sweeps_into_measurement < sweeps_per_measurement,
        schedule.measurements_remaining == 0 ==> schedule.sweeps_into_measurement == 0,
        budget + schedule.sweeps_into_measurement >= schedule.thermalization_remaining
            + schedule.measurements_remaining * sweeps_per_measurement,
    ensures
        schedule_complete(schedule_after(schedule, sweeps_per_measurement, budget)),
        schedule_after(schedule, sweeps_per_measurement, budget).recorded == schedule.recorded
            + schedule.measurements_remaining,
    decreases budget,
{
    if !schedule_complete(schedule) {
        let next = schedule_step(schedule, sweeps_per_measurement);
        if schedule.measurements_remaining > 0 {
            assert(schedule.measurements_remaining * sweeps_per_measurement
                >= sweeps_per_measurement) by (nonlinear_arith)
                requires
                    schedule.measurements_remaining > 0,
            ;
        }
        if schedule.thermalization_remaining == 0 {
            if schedule.sweeps_into_measurement + 1 == sweeps_per_measurement {
                assert((schedule.measurements_remaining - 1) as nat * sweeps_per_measurement
                    == schedule.measurements_remaining * sweeps_per_measurement
                    - sweeps_per_measurement) by (nonlinear_arith)
                    requires
                        schedule.measurements_remaining > 0,
                ;
            }
        }
        assert(budget > 0);
        assert(schedule_after(schedule, sweeps_per_measurement, budget) == schedule_after(
            next,
            sweeps_per_measurement,
            (budget - 1) as nat,
        ));
        lemma_schedule_completes(next, sweeps_per_measurement, (budget - 1) as nat);
    }
}

/// Wraps the qslib headroom check: grows the operator-string cutoff when
/// identity headroom is low and reports whether it grew.
#[verifier::external_body]
fn grow_headroom(sampler: &mut ChainSampler) -> bool {
    sampler.ensure_operator_headroom()
}

/// Wraps the qslib diagonal insertion/removal sweep, copying its counters.
/// Each accepted insertion or removal is counted after its proposal, so a
/// successful sweep never accepts more than it proposed.
#[verifier::external_body]
fn sweep_diagonal(sampler: &mut ChainSampler) -> (result: Result<DiagonalStats, String>)
    ensures
        result matches Ok(stats) ==> stats.insertions_accepted <= stats.insertions_proposed
            && stats.removals_accepted <= stats.removals_proposed,
        result matches Err(message) ==> message@ != unsupported_cluster_update_text(),
{
    match sampler.diagonal_sweep() {
        Ok(stats) => Ok(
            DiagonalStats {
                insertions_proposed: stats.insertions_proposed,
                insertions_accepted: stats.insertions_accepted,
                removals_proposed: stats.removals_proposed,
                removals_accepted: stats.removals_accepted,
            },
        ),
        Err(error) => Err(error.to_string()),
    }
}

/// Wraps the qslib transverse-field Ising linked-cluster sweep. A
/// successful sweep makes one proposal, which it accepts once the trace
/// validates, and flips only clusters that it counted.
#[verifier::external_body]
fn sweep_tfim_clusters(sampler: &mut ChainSampler) -> (result: Result<ClusterStats, String>)
    ensures
        result matches Ok(stats) ==> cluster_sweep_shape(UpdateScheme::TfimCluster, stats),
{
    match sampler.tfim_cluster_sweep() {
        Ok(s) => Ok(ClusterStats { clusters: s.clusters, flipped_clusters: s.flipped_clusters, vertices_toggled: s.vertices_toggled, proposals: s.proposals, proposals_accepted: s.proposals_accepted }),
        Err(error) => Err(error.to_string()),
    }
}

/// Wraps the qslib site-local Rydberg world-line sweep. It forms no
/// clusters; each accepted move follows its proposal and is either one
/// boundary flip or two toggled partner vertices.
#[verifier::external_body]
fn sweep_rydberg_local(sampler: &mut ChainSampler) -> (result: Result<ClusterStats, String>)
    ensures
        result matches Ok(stats) ==> cluster_sweep_shape(UpdateScheme::RydbergLocal, stats),
        result matches Err(message) ==> message@ != unsupported_cluster_update_text(),
{
    match sampler.rydberg_local_sweep() {
        Ok(s) => Ok(ClusterStats { clusters: s.clusters, flipped_clusters: s.flipped_clusters, vertices_toggled: s.vertices_toggled, proposals: s.proposals, proposals_accepted: s.proposals_accepted }),
        Err(error) => Err(error.to_string()),
    }
}

/// Wraps the qslib Metropolis-corrected global Rydberg cluster sweep. A
/// successful sweep makes one proposal, accepts it at most once, flips only
/// clusters that it counted, and reports nothing flipped or toggled when it
/// rejects.
#[verifier::external_body]
fn sweep_rydberg_global(sampler: &mut ChainSampler) -> (result: Result<ClusterStats, String>)
    ensures
        result matches Ok(stats) ==> cluster_sweep_shape(UpdateScheme::RydbergGlobalReference, stats),
        result matches Err(message) ==> message@ != unsupported_cluster_update_text(),
{
    match sampler.rydberg_global_cluster_sweep() {
        Ok(s) => Ok(ClusterStats { clusters: s.clusters, flipped_clusters: s.flipped_clusters, vertices_toggled: s.vertices_toggled, proposals: s.proposals, proposals_accepted: s.proposals_accepted }),
        Err(error) => Err(error.to_string()),
    }
}

/// Wraps the qslib count of non-identity operators in the sampler's string.
#[verifier::external_body]
fn current_expansion_order(sampler: &ChainSampler) -> usize {
    sampler.state().expansion_order()
}

/// Name for the 32-byte seed that qslib derives for a chain under the
/// versioned `qslib-seed-v1` scheme.
pub uninterp spec fn qslib_chain_seed(master_seed: u64, chain_index: u64) -> Seq<u8>;

/// Wraps `qslib::sse::derive_chain_seed`, whose result depends only on the
/// master seed and the chain index.
#[verifier::external_body]
fn derive_qslib_chain_seed(master_seed: u64, chain_index: u64) -> (seed: [u8; 32])
    ensures
        seed@ == qslib_chain_seed(master_seed, chain_index),
{
    qslib::sse::derive_chain_seed(master_seed, chain_index)
}

/// Lower-case hexadecimal text of a byte sequence, two digits per byte.
pub open spec fn hex_text(bytes: Seq<u8>) -> Seq<char>
    decreases bytes.len(),
{
    if bytes.len() == 0 {
        Seq::empty()
    } else {
        hex_text(bytes.drop_last()) + hex_byte(bytes.last())
    }
}

/// Encodes a 32-byte seed as 64 lower-case hexadecimal digits.
pub fn seed_hex(seed: &[u8; 32]) -> (text: String)
    ensures
        text@ == hex_text(seed@),
{
    let mut text = String::new();
    let mut index: usize = 0;
    while index < 32
        invariant
            index <= 32,
            seed@.len() == 32,
            text@ == hex_text(seed@.take(index as int)),
        decreases 32 - index,
    {
        proof {
            assert(seed@.take(index + 1).drop_last() =~= seed@.take(index as int));
        }
        push_hex_byte(&mut text, seed[index]);
        index += 1;
    }
    proof {
        assert(seed@.take(32) =~= seed@);
    }
    text
}

/// Hexadecimal text of the seed that qslib derives for a chain, as recorded
/// in chain artifacts.
pub fn chain_seed_hex(master_seed: u64, chain_index: u64) -> (text: String)
    ensures
        text@ == hex_text(qslib_chain_seed(master_seed, chain_index)),
{
    let seed = derive_qslib_chain_seed(master_seed, chain_index);
    seed_hex(&seed)
}

/// One independent, resumable Monte Carlo chain.
pub struct ChainEngine {
    sampler: ChainSampler,
    scheme: UpdateScheme,
    sweeps_per_measurement: usize,
    thermalization_remaining: usize,
    measurements_remaining: usize,
    sweeps_into_measurement: usize,
    num_sites: usize,
    diagonal: DiagonalStats,
    clusters: ClusterStats,
}

impl ChainEngine {
    /// Sweeps per measurement are positive, the partial measurement is
    /// shorter than one measurement, and no partial measurement remains once
    /// every measurement is recorded.
    pub closed spec fn wf(self) -> bool {
        &&& self.sweeps_per_measurement > 0
        &&& self.sweeps_into_measurement < self.sweeps_per_measurement
        &&& self.measurements_remaining == 0 ==> self.sweeps_into_measurement == 0
    }

    /// The current schedule counters, with no recorded measurement yet.
    pub closed spec fn schedule(self) -> Schedule {
        Schedule {
            thermalization_remaining: self.thermalization_remaining as nat,
            measurements_remaining: self.measurements_remaining as nat,
            sweeps_into_measurement: self.sweeps_into_measurement as nat,
            recorded: 0,
            sweeps: 0,
        }
    }

    /// Configured sweeps per measurement.
    pub closed spec fn sweeps_per_measurement_spec(self) -> nat {
        self.sweeps_per_measurement as nat
    }

    /// Number of lattice sites.
    pub closed spec fn num_sites_spec(self) -> usize {
        self.num_sites
    }

    /// Cumulative diagonal statistics.
    pub closed spec fn diagonal_spec(self) -> DiagonalStats {
        self.diagonal
    }

    /// Cumulative cluster statistics.
    pub closed spec fn clusters_spec(self) -> ClusterStats {
        self.clusters
    }

    /// The configured update family.
    pub closed spec fn scheme_spec(self) -> UpdateScheme {
        self.scheme
    }

    /// The sampler that the chain drives.
    pub closed spec fn sampler_spec(self) -> ChainSampler {
        self.sampler
    }

    /// Starts a chain over a constructed sampler with the configured sweep
    /// schedule.
    pub fn start(
        sampler: ChainSampler,
        scheme: UpdateScheme,
        num_sites: usize,
        thermalization_sweeps: usize,
        measurement_sweeps: usize,
        sweeps_per_measurement: usize,
    ) -> (engine: Self)
        requires
            sweeps_per_measurement > 0,
        ensures
            engine.wf(),
            engine.schedule() == (Schedule {
                thermalization_remaining: thermalization_sweeps as nat,
                measurements_remaining: measurement_sweeps as nat,
                sweeps_into_measurement: 0,
                recorded: 0,
                sweeps: 0,
            }),
            engine.sweeps_per_measurement_spec() == sweeps_per_measurement,
            engine.num_sites_spec() == num_sites,
            engine.scheme_spec() == scheme,
            engine.diagonal_spec() == DiagonalStats::default_spec(),
            engine.clusters_spec() == ClusterStats::default_spec(),
            engine.sampler_spec() == sampler,
    {
        ChainEngine {
            sampler,
            scheme,
            sweeps_per_measurement,
            thermalization_remaining: thermalization_sweeps,
            measurements_remaining: measurement_sweeps,
            sweeps_into_measurement: 0,
            num_sites,
            diagonal: DiagonalStats {
                insertions_proposed: 0,
                insertions_accepted: 0,
                removals_proposed: 0,
                removals_accepted: 0,
            },
            clusters: ClusterStats {
                clusters: 0,
                flipped_clusters: 0,
                vertices_toggled: 0,
                proposals: 0,
                proposals_accepted: 0,
            },
        }
    }

    /// Borrows the underlying sampler.
    pub fn sampler(&self) -> (sampler: &ChainSampler)
        ensures
            *sampler == self.sampler_spec(),
    {
        &self.sampler
    }

    /// Returns the current phase.
    #[must_use]
    pub fn phase(&self) -> (phase: Phase)
        ensures
            phase == phase_of(self.schedule()),
    {
        if self.thermalization_remaining > 0 {
            Phase::Thermalization
        } else if self.measurements_remaining > 0 {
            Phase::Measurement
        } else {
            Phase::Complete
        }
    }

    /// Runs up to `budget` sweeps, recording measurements at their exact
    /// configured boundaries, and reports newly recorded expansion orders.
    ///
    /// A failed sweep, or cumulative statistics that no longer fit in
    /// `usize`, ends the batch with an error message.
    pub fn advance(&mut self, budget: usize) -> (result: Result<AdvanceReport, String>)
        requires
            old(self).wf(),
        ensures
            final(self).wf(),
            final(self).sweeps_per_measurement_spec() == old(self).sweeps_per_measurement_spec(),
            final(self).num_sites_spec() == old(self).num_sites_spec(),
            final(self).scheme_spec() == old(self).scheme_spec(),
            (budget == 0 || schedule_complete(old(self).schedule())) ==> result is Ok,
            diagonal_grown(old(self).diagonal_spec(), final(self).diagonal_spec()),
            clusters_grown(old(self).clusters_spec(), final(self).clusters_spec()),
            diagonal_consistent(old(self).diagonal_spec()) ==> diagonal_consistent(
                final(self).diagonal_spec(),
            ),
            old(self).scheme_spec() != UpdateScheme::TfimCluster ==> (result matches Err(message)
                ==> message@ != unsupported_cluster_update_text()),
            exists|sweeps: nat|
                sweeps <= budget && cluster_totals_grew(
                    old(self).scheme_spec(),
                    old(self).clusters_spec(),
                    final(self).clusters_spec(),
                    sweeps,
                ),
            result matches Ok(report) ==> ({
                let after = schedule_after(
                    old(self).schedule(),
                    old(self).sweeps_per_measurement_spec(),
                    budget as nat,
                );
                &&& final(self).schedule() == Schedule { recorded: 0, sweeps: 0, ..after }
                &&& report.orders@.len() == after.recorded
                &&& report.phase == phase_of(after)
                &&& report.thermalization_remaining == after.thermalization_remaining
                &&& report.measurements_remaining == after.measurements_remaining
                &&& report.num_sites == final(self).num_sites_spec()
                &&& report.diagonal == final(self).diagonal_spec()
                &&& report.clusters == final(self).clusters_spec()
                &&& cluster_totals_grew(
                    old(self).scheme_spec(),
                    old(self).clusters_spec(),
                    final(self).clusters_spec(),
                    after.sweeps,
                )
            }),
    {
        let ghost period = self.sweeps_per_measurement as nat;
        let ghost target = schedule_after(self.schedule(), period, budget as nat);
        let mut orders: Vec<usize> = Vec::new();
        let mut remaining = budget;
        let mut done = false;
        while remaining > 0 && !done
            invariant
                self.sweeps_per_measurement == period,
                period == old(self).sweeps_per_measurement,
                period > 0,
                remaining <= budget,
                self.sweeps_into_measurement < period,
                self.measurements_remaining == 0 ==> self.sweeps_into_measurement == 0,
                done ==> schedule_complete(self.schedule()),
                schedule_complete(old(self).schedule()) ==> schedule_complete(self.schedule()),
                self.num_sites == old(self).num_sites,
                self.scheme == old(self).scheme,
                diagonal_grown(old(self).diagonal, self.diagonal),
                clusters_grown(old(self).clusters, self.clusters),
                diagonal_consistent(old(self).diagonal) ==> diagonal_consistent(self.diagonal),
                cluster_totals_grew(
                    self.scheme,
                    old(self).clusters,
                    self.clusters,
                    (budget - remaining) as nat,
                ),
                schedule_after(
                    Schedule {
                        recorded: orders@.len(),
                        sweeps: (budget - remaining) as nat,
                        ..self.schedule()
                    },
                    period,
                    remaining as nat,
                ) == target,
            decreases remaining + if done { 0int } else { 1int },
        {
            let ghost before = Schedule {
                recorded: orders@.len(),
                sweeps: (budget - remaining) as nat,
                ..self.schedule()
            };
            if self.thermalization_remaining > 0 {
                let ghost done_sweeps = (budget - remaining) as nat;
                match self.one_sweep() {
                    Ok(_) => {},
                    Err(message) => {
                        proof {
                            assert(done_sweeps <= budget && cluster_totals_grew(
                                old(self).scheme_spec(),
                                old(self).clusters_spec(),
                                self.clusters_spec(),
                                done_sweeps,
                            ));
                        }
                        return Err(message);
                    },
                }
                self.thermalization_remaining = self.thermalization_remaining - 1;
                remaining = remaining - 1;
                proof {
                    assert(schedule_step(before, period) == Schedule {
                        recorded: orders@.len(),
                        sweeps: (budget - remaining) as nat,
                        ..self.schedule()
                    });
                }
            } else if self.measurements_remaining == 0 {
                done = true;
            } else {
                let ghost done_sweeps = (budget - remaining) as nat;
                match self.one_sweep() {
                    Ok(_) => {},
                    Err(message) => {
                        proof {
                            assert(done_sweeps <= budget && cluster_totals_grew(
                                old(self).scheme_spec(),
                                old(self).clusters_spec(),
                                self.clusters_spec(),
                                done_sweeps,
                            ));
                        }
                        return Err(message);
                    },
                }
                let next = self.sweeps_into_measurement + 1;
                remaining = remaining - 1;
                if next == self.sweeps_per_measurement {
                    self.sweeps_into_measurement = 0;
                    self.measurements_remaining = self.measurements_remaining - 1;
                    orders.push(current_expansion_order(&self.sampler));
                } else {
                    self.sweeps_into_measurement = next;
                }
                proof {
                    assert(schedule_step(before, period) == Schedule {
                        recorded: orders@.len(),
                        sweeps: (budget - remaining) as nat,
                        ..self.schedule()
                    });
                }
            }
        }
        proof {
            let here = Schedule {
                recorded: orders@.len(),
                sweeps: (budget - remaining) as nat,
                ..self.schedule()
            };
            assert(schedule_after(here, period, remaining as nat) == here);
            assert(target.sweeps <= budget && cluster_totals_grew(
                old(self).scheme_spec(),
                old(self).clusters_spec(),
                self.clusters_spec(),
                target.sweeps,
            ));
        }
        Ok(
            AdvanceReport {
                phase: self.phase(),
                thermalization_remaining: self.thermalization_remaining,
                measurements_remaining: self.measurements_remaining,
                orders,
                num_sites: self.num_sites,
                diagonal: self.diagonal,
                clusters: self.clusters,
            },
        )
    }

    /// Adds one diagonal sweep's counts to the cumulative ones, or reports
    /// that a counter would overflow and leaves them unchanged.
    fn add_diagonal(&mut self, sweep: DiagonalStats) -> (result: Result<(), String>)
        ensures
            final(self).thermalization_remaining == old(self).thermalization_remaining,
            final(self).measurements_remaining == old(self).measurements_remaining,
            final(self).sweeps_into_measurement == old(self).sweeps_into_measurement,
            final(self).sweeps_per_measurement == old(self).sweeps_per_measurement,
            final(self).num_sites == old(self).num_sites,
            final(self).scheme == old(self).scheme,
            final(self).sampler == old(self).sampler,
            final(self).clusters == old(self).clusters,
            result is Ok <==> diagonal_sum_fits(old(self).diagonal, sweep),
            result is Ok ==> final(self).diagonal == diagonal_sum(old(self).diagonal, sweep),
            result matches Err(message) ==> final(self).diagonal == old(self).diagonal
                && message@ == "cumulative diagonal statistics overflowed usize"@,
    {
        let d = self.diagonal;
        match (
            d.insertions_proposed.checked_add(sweep.insertions_proposed),
            d.insertions_accepted.checked_add(sweep.insertions_accepted),
            d.removals_proposed.checked_add(sweep.removals_proposed),
            d.removals_accepted.checked_add(sweep.removals_accepted),
        ) {
            (Some(a), Some(b), Some(e), Some(f)) => {
                self.diagonal = DiagonalStats {
                    insertions_proposed: a,
                    insertions_accepted: b,
                    removals_proposed: e,
                    removals_accepted: f,
                };
                Ok(())
            },
            _ => Err(String::from_str("cumulative diagonal statistics overflowed usize")),
        }
    }

    /// Adds one cluster sweep's counts to the cumulative ones, or reports
    /// that a counter would overflow and leaves them unchanged.
    fn add_clusters(&mut self, sweep: ClusterStats) -> (result: Result<(), String>)
        ensures
            final(self).thermalization_remaining == old(self).thermalization_remaining,
            final(self).measurements_remaining == old(self).measurements_remaining,
            final(self).sweeps_into_measurement == old(self).sweeps_into_measurement,
            final(self).sweeps_per_measurement == old(self).sweeps_per_measurement,
            final(self).num_sites == old(self).num_sites,
            final(self).scheme == old(self).scheme,
            final(self).sampler == old(self).sampler,
            final(self).diagonal == old(self).diagonal,
            result is Ok <==> cluster_sum_fits(old(self).clusters, sweep),
            result is Ok ==> final(self).clusters == cluster_sum(old(self).clusters, sweep),
            result matches Err(message) ==> final(self).clusters == old(self).clusters
                && message@ == "cumulative cluster statistics overflowed usize"@,
    {
        let c = self.clusters;
        match (
            c.clusters.checked_add(sweep.clusters),
            c.flipped_clusters.checked_add(sweep.flipped_clusters),
            c.vertices_toggled.checked_add(sweep.vertices_toggled),
            c.proposals.checked_add(sweep.proposals),
            c.proposals_accepted.checked_add(sweep.proposals_accepted),
        ) {
            (Some(a), Some(b), Some(e), Some(f), Some(g)) => {
                self.clusters = ClusterStats {
                    clusters: a,
                    flipped_clusters: b,
                    vertices_toggled: e,
                    proposals: f,
                    proposals_accepted: g,
                };
                Ok(())
            },
            _ => Err(String::from_str("cumulative cluster statistics overflowed usize")),
        }
    }

    /// Performs one unit of work: headroom growth, a diagonal sweep and the
    /// scheme's cluster or world-line sweep. On success it returns the two
    /// sweeps' own counts, which have been added to the cumulative ones.
    fn one_sweep(&mut self) -> (result: Result<(DiagonalStats, ClusterStats), String>)
        ensures
            final(self).thermalization_remaining == old(self).thermalization_remaining,
            final(self).measurements_remaining == old(self).measurements_remaining,
            final(self).sweeps_into_measurement == old(self).sweeps_into_measurement,
            final(self).sweeps_per_measurement == old(self).sweeps_per_measurement,
            final(self).num_sites == old(self).num_sites,
            final(self).scheme == old(self).scheme,
            result matches Ok((diagonal, clusters)) ==> {
                &&& diagonal.insertions_accepted <= diagonal.insertions_proposed
                &&& diagonal.removals_accepted <= diagonal.removals_proposed
                &&& diagonal_sum_fits(old(self).diagonal, diagonal)
                &&& cluster_sum_fits(old(self).clusters, clusters)
                &&& final(self).diagonal == diagonal_sum(old(self).diagonal, diagonal)
                &&& final(self).clusters == cluster_sum(old(self).clusters, clusters)
            },
            result matches Ok((diagonal, clusters)) ==> cluster_sweep_shape(
                old(self).scheme,
                clusters,
            ),
            result is Err ==> final(self).clusters == old(self).clusters,
            old(self).scheme != UpdateScheme::TfimCluster ==> (result matches Err(message)
                ==> message@ != unsupported_cluster_update_text()),
            diagonal_grown(old(self).diagonal, final(self).diagonal),
            clusters_grown(old(self).clusters, final(self).clusters),
            diagonal_consistent(old(self).diagonal) ==> diagonal_consistent(final(self).diagonal),
    {
        grow_headroom(&mut self.sampler);
        let diagonal = match sweep_diagonal(&mut self.sampler) {
            Ok(stats) => stats,
            Err(message) => {
                return Err(message);
            },
        };
        match self.add_diagonal(diagonal) {
            Ok(()) => {},
            Err(message) => {
                proof {
                    reveal_strlit("cumulative diagonal statistics overflowed usize");
                    reveal_strlit("the model does not support the TFIM cluster update");
                    assert(message@[0] != unsupported_cluster_update_text()[0]);
                }
                return Err(message);
            },
        }
        let clusters = match self.scheme {
            UpdateScheme::TfimCluster => sweep_tfim_clusters(&mut self.sampler),
            UpdateScheme::RydbergLocal => sweep_rydberg_local(&mut self.sampler),
            UpdateScheme::RydbergGlobalReference => sweep_rydberg_global(&mut self.sampler),
        };
        let clusters = match clusters {
            Ok(stats) => stats,
            Err(message) => {
                return Err(message);
            },
        };
        match self.add_clusters(clusters) {
            Ok(()) => Ok((diagonal, clusters)),
            Err(message) => {
                proof {
                    reveal_strlit("cumulative cluster statistics overflowed usize");
                    reveal_strlit("the model does not support the TFIM cluster update");
                    assert(message@[0] != unsupported_cluster_update_text()[0]);
                }
                Err(message)
            },
        }
    }
}

/// The phase named by a schedule.
pub open spec fn phase_of(schedule: Schedule) -> Phase {
    if schedule.thermalization_remaining > 0 {
        Phase::Thermalization
    } else if schedule.measurements_remaining > 0 {
        Phase::Measurement
    } else {
        Phase::Complete
    }
}

impl DiagonalStats {
    /// All counters zero.
    pub open spec fn default_spec() -> DiagonalStats {
        DiagonalStats {
            insertions_proposed: 0,
            insertions_accepted: 0,
            removals_proposed: 0,
            removals_accepted: 0,
        }
    }
}

impl ClusterStats {
    /// All counters zero.
    pub open spec fn default_spec() -> ClusterStats {
        ClusterStats {
            clusters: 0,
            flipped_clusters: 0,
            vertices_toggled: 0,
            proposals: 0,
            proposals_accepted: 0,
        }
    }
}

} // verus!
