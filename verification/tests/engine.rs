use qslib::sse::{BasisSseState, LocalSseModel, Operator, SseModel, SseSampler};
use qslib::BasisBit;
use quantum_sse::engine::{chain_seed_hex, seed_hex, ChainEngine, Phase, UpdateScheme};
use quantum_sse::sse::schedule::{SweepPlan, SweepStep};
use quantum_sse::sse::stats::SimulationConfig;
use rand_chacha::ChaCha20Rng;
use rand_core::SeedableRng;

const MASTER_SEED: u64 = 20_240_601;

fn square_bonds() -> Vec<(u32, u32)> {
    vec![(0, 1), (2, 3), (0, 2), (1, 3)]
}

fn tfim_engine(chain_index: u64) -> ChainEngine {
    let model = LocalSseModel::tfim(4, &square_bonds(), 1.0, 1.0).unwrap();
    let state = BasisSseState::new(vec![BasisBit::One; 4], vec![Operator::identity(); 64]).unwrap();
    let rng = ChaCha20Rng::from_seed(qslib::sse::derive_chain_seed(MASTER_SEED, chain_index));
    let sampler = SseSampler::new(model, state, 1.0, rng).unwrap();
    ChainEngine::start(sampler, UpdateScheme::TfimCluster, 4, 50, 200, 2)
}

fn run_to_completion(mut engine: ChainEngine, batch: usize) -> Vec<usize> {
    let mut orders = Vec::new();
    loop {
        let report = engine.advance(batch).unwrap();
        orders.extend(report.orders);
        if report.phase == Phase::Complete {
            return orders;
        }
    }
}

/// The command-line runner's sweep sequence, written directly against the
/// sampler: thermalization sweeps, then for each measurement its sweeps and
/// one expansion-order reading.
fn runner_series(chain_index: u64) -> Vec<usize> {
    let model = LocalSseModel::tfim(4, &square_bonds(), 1.0, 1.0).unwrap();
    let state = BasisSseState::new(vec![BasisBit::One; 4], vec![Operator::identity(); 64]).unwrap();
    let rng = ChaCha20Rng::from_seed(qslib::sse::derive_chain_seed(MASTER_SEED, chain_index));
    let mut sampler = SseSampler::new(model, state, 1.0, rng).unwrap();
    let sweep = |sampler: &mut SseSampler<LocalSseModel, ChaCha20Rng>| {
        sampler.ensure_operator_headroom();
        sampler.diagonal_sweep().unwrap();
        sampler.tfim_cluster_sweep().unwrap();
    };
    for _ in 0..50 {
        sweep(&mut sampler);
    }
    let mut orders = Vec::new();
    for _ in 0..200 {
        for _ in 0..2 {
            sweep(&mut sampler);
        }
        orders.push(sampler.state().expansion_order());
    }
    orders
}

#[test]
fn web_chains_reproduce_the_cli_runner_series_exactly() {
    for chain_index in 0..3u64 {
        let orders = run_to_completion(tfim_engine(chain_index), 37);
        assert_eq!(
            orders,
            runner_series(chain_index),
            "chain {} diverged from the CLI series",
            chain_index
        );
        assert_eq!(chain_seed_hex(MASTER_SEED, chain_index).len(), 64, "fixture seeds are 32-byte hex");
    }
}

#[test]
fn batching_does_not_change_the_series() {
    let coarse = run_to_completion(tfim_engine(0), 10_000);
    let fine = run_to_completion(tfim_engine(0), 1);
    assert_eq!(coarse, fine);
    assert_eq!(coarse.len(), 200);
}

#[test]
fn advance_reports_phases_and_counts() {
    let model = LocalSseModel::tfim(4, &square_bonds(), 1.0, 1.0).unwrap();
    assert!(model.num_sites() == 4 && model.energy_shift() > 0.0);
    let mut engine = tfim_engine(0);
    assert_eq!(engine.phase(), Phase::Thermalization);
    let report = engine.advance(10).unwrap();
    assert_eq!(report.phase, Phase::Thermalization);
    assert_eq!(report.thermalization_remaining, 40);
    assert!(report.orders.is_empty());
    let report = engine.advance(40).unwrap();
    assert_eq!(report.phase, Phase::Measurement);
    // Two sweeps per measurement: 100 more sweeps yields 50 measurements.
    let report = engine.advance(100).unwrap();
    assert_eq!(report.orders.len(), 50);
    assert_eq!(report.measurements_remaining, 150);
    assert_eq!(report.num_sites, 4);
    assert!(report.diagonal.insertions_proposed > 0);
    assert!(report.clusters.proposals > 0);
    let later = engine.advance(100).unwrap();
    assert!(later.diagonal.insertions_proposed >= report.diagonal.insertions_proposed);
    assert!(later.diagonal.insertions_accepted <= later.diagonal.insertions_proposed);
    assert!(later.diagonal.removals_accepted <= later.diagonal.removals_proposed);
    assert!(later.clusters.proposals >= report.clusters.proposals);
}

#[test]
fn each_scheme_runs_its_own_update() {
    let mut engine = tfim_engine(4);
    let report = engine.advance(30).unwrap();
    assert_eq!(report.clusters.proposals, 30);
    assert_eq!(report.clusters.proposals_accepted, 30);
    assert!(report.clusters.flipped_clusters <= report.clusters.clusters);
    assert!(report.clusters.clusters >= 30);

    let interactions = vec![(0, 1, 1.0), (1, 2, 1.0), (0, 2, 1.0 / 8.0)];
    let model = LocalSseModel::rydberg(3, &[1.0; 3], &interactions, 1.0).unwrap();
    let state = BasisSseState::new(vec![BasisBit::Zero; 3], vec![Operator::identity(); 32]).unwrap();
    let rng = ChaCha20Rng::from_seed(qslib::sse::derive_chain_seed(9, 0));
    let sampler = SseSampler::new(model, state, 2.0, rng).unwrap();
    let mut local = ChainEngine::start(sampler, UpdateScheme::RydbergLocal, 3, 20, 10, 1);
    let report = local.advance(30).unwrap();
    assert_eq!(report.clusters.clusters, 0);
    assert_eq!(report.clusters.proposals, 90);
    assert!(report.clusters.proposals_accepted <= report.clusters.proposals);
    assert_eq!(
        report.clusters.flipped_clusters + report.clusters.vertices_toggled / 2,
        report.clusters.proposals_accepted
    );
}

#[test]
fn a_completed_chain_records_nothing_more() {
    let mut engine = tfim_engine(1);
    let report = engine.advance(1_000).unwrap();
    assert_eq!(report.phase, Phase::Complete);
    assert_eq!(report.orders.len(), 200);
    assert_eq!(report.thermalization_remaining, 0);
    assert_eq!(report.measurements_remaining, 0);
    let again = engine.advance(10).unwrap();
    assert_eq!(again.phase, Phase::Complete);
    assert!(again.orders.is_empty());
}

#[test]
fn rydberg_chains_run_and_complete() {
    let interactions = vec![
        (0, 1, 1.0),
        (0, 2, 1.0),
        (0, 3, 1.0 / 8.0),
        (1, 2, 1.0 / 8.0),
        (1, 3, 1.0),
        (2, 3, 1.0),
    ];
    let model = LocalSseModel::rydberg(4, &[1.0; 4], &interactions, 1.0).unwrap();
    let state = BasisSseState::new(vec![BasisBit::Zero; 4], vec![Operator::identity(); 64]).unwrap();
    let rng = ChaCha20Rng::from_seed(qslib::sse::derive_chain_seed(5, 0));
    let sampler = SseSampler::new(model, state, 2.0, rng).unwrap();
    let engine = ChainEngine::start(sampler, UpdateScheme::RydbergLocal, 4, 100, 200, 1);
    let orders = run_to_completion(engine, 61);
    assert_eq!(orders.len(), 200);
    assert!(orders.iter().any(|&order| order > 0));
}

#[test]
fn chain_seed_text_is_the_hex_of_the_derived_seed() {
    let seed = qslib::sse::derive_chain_seed(MASTER_SEED, 3);
    let text = chain_seed_hex(MASTER_SEED, 3);
    assert_eq!(text, seed_hex(&seed));
    assert_eq!(text.len(), 64);
    let expected: String = seed.iter().map(|byte| format!("{byte:02x}")).collect();
    assert_eq!(text, expected);
    assert_ne!(chain_seed_hex(MASTER_SEED, 3), chain_seed_hex(MASTER_SEED, 4));
}

#[test]
fn the_engine_records_after_the_same_sweeps_as_a_sweep_plan() {
    let mut engine = tfim_engine(2);
    let mut plan = SweepPlan::new(SimulationConfig {
        thermalization_sweeps: 50,
        measurement_sweeps: 200,
        sweeps_per_measurement: 2,
    })
    .unwrap();
    for budget in [10usize, 40, 1, 99, 7, 1_000] {
        let report = engine.advance(budget).unwrap();
        let mut sweeps = 0;
        let mut records = 0;
        loop {
            let step = match plan.next_step() {
                SweepStep::Record => {
                    records += 1;
                    continue;
                }
                SweepStep::Done => break,
                step => step,
            };
            assert!(step == SweepStep::Thermalize || step == SweepStep::Measure);
            sweeps += 1;
            if sweeps == budget {
                break;
            }
        }
        // A recording that falls due right after the last sweep of a batch
        // belongs to that batch.
        if sweeps == budget && records < report.orders.len() {
            assert_eq!(plan.next_step(), SweepStep::Record);
            records += 1;
        }
        assert_eq!(records, report.orders.len());
    }
    assert_eq!(plan.next_step(), SweepStep::Done);
    assert_eq!(engine.phase(), Phase::Complete);
}
