use quantum_sse::artifacts::{
    measurements_csv, RunManifest, RunStatus, UpdateStatistics, ARTIFACT_SCHEMA_VERSION,
};
use quantum_sse::config::{
    default_sweeps_per_measurement, BoundaryConfig, ConfigError, ExecutionSettings, InitialState,
    RydbergUpdate, RUN_SCHEMA_VERSION,
};
use quantum_sse::engine::seed_hex;
use quantum_sse::geometry::BoundaryCondition;
use quantum_sse::sse::parallel::derive_chain_seed;
use quantum_sse::sse::stats::{ClusterSweepStats, DiagonalSweepStats, SimulationConfig};
use quantum_sse::text::{push_decimal, push_hex_byte};
use quantum_sse::Spin;

fn validation_message(error: ConfigError) -> String {
    match error {
        ConfigError::Validation(message) => message,
        other => panic!("expected a validation error, got {other:?}"),
    }
}

#[test]
fn schema_versions_are_fixed() {
    assert_eq!(RUN_SCHEMA_VERSION, "sse-run-v1");
    assert_eq!(ARTIFACT_SCHEMA_VERSION, "sse-artifacts-v2");
}

#[test]
fn configuration_defaults() {
    assert_eq!(RydbergUpdate::default(), RydbergUpdate::Local);
    assert_eq!(InitialState::default(), InitialState::Down);
    assert_eq!(default_sweeps_per_measurement(), 1);
    assert_eq!(
        ExecutionSettings::default(),
        ExecutionSettings { chains: 4, threads: 1, seed: 0 }
    );
    let simulation = SimulationConfig::default();
    assert_eq!(simulation.thermalization_sweeps, 1_000);
    assert_eq!(simulation.measurement_sweeps, 10_000);
    assert_eq!(simulation.sweeps_per_measurement, 1);
}

#[test]
fn boundary_configuration_converts() {
    assert_eq!(BoundaryCondition::from(BoundaryConfig::Open), BoundaryCondition::Open);
    assert_eq!(BoundaryCondition::from(BoundaryConfig::Periodic), BoundaryCondition::Periodic);
}

#[test]
fn execution_settings_require_chains_and_threads() {
    assert!(ExecutionSettings { chains: 2, threads: 3, seed: 9 }.validate().is_ok());
    assert_eq!(
        validation_message(ExecutionSettings { chains: 0, threads: 0, seed: 0 }.validate().unwrap_err()),
        "execution.chains must be greater than zero"
    );
    assert_eq!(
        validation_message(ExecutionSettings { chains: 1, threads: 0, seed: 0 }.validate().unwrap_err()),
        "execution.threads must be greater than zero"
    );
}

#[test]
fn initial_states_materialize_one_spin_per_site() {
    assert_eq!(InitialState::Down.build(3).unwrap(), vec![Spin::Down; 3]);
    assert_eq!(InitialState::Up.build(2).unwrap(), vec![Spin::Up; 2]);
    assert_eq!(
        InitialState::Alternating.build(5).unwrap(),
        vec![Spin::Up, Spin::Down, Spin::Up, Spin::Down, Spin::Up]
    );
    assert_eq!(
        validation_message(InitialState::Up.build(0).unwrap_err()),
        "initial state requires at least one site"
    );
}

#[test]
fn decimal_and_hex_text() {
    let mut text = String::from("n=");
    push_decimal(&mut text, 0);
    text.push(',');
    push_decimal(&mut text, 1_234_567);
    text.push(',');
    push_decimal(&mut text, usize::MAX);
    assert_eq!(text, format!("n=0,1234567,{}", usize::MAX));
    let mut hex = String::new();
    push_hex_byte(&mut hex, 0x0f);
    push_hex_byte(&mut hex, 0xa0);
    push_hex_byte(&mut hex, 0xff);
    assert_eq!(hex, "0fa0ff");
}

#[test]
fn seed_hex_encodes_every_byte() {
    let mut seed = [0u8; 32];
    for (index, byte) in seed.iter_mut().enumerate() {
        *byte = (index as u8) * 8;
    }
    let text = seed_hex(&seed);
    assert_eq!(text.len(), 64);
    assert!(text.starts_with("00081018"));
    assert!(text.ends_with("e8f0f8"));
}

#[test]
fn chain_seeds_follow_the_splitmix_mixing() {
    assert_eq!(derive_chain_seed(0, 0), 0);
    assert_eq!(derive_chain_seed(42, 0), 12_058_926_934_050_108_962);
    assert_eq!(derive_chain_seed(42, 1), 13_679_457_532_755_275_413);
    assert_eq!(derive_chain_seed(7, 3), 16_731_224_329_868_871_185);
    assert_eq!(derive_chain_seed(u64::MAX, u64::MAX), 16_490_336_266_968_443_936);
    assert_ne!(derive_chain_seed(42, 0), derive_chain_seed(42, 1));
}

#[test]
fn distinct_chains_get_distinct_seeds() {
    let seeds: Vec<u64> = (0..256u64).map(|index| derive_chain_seed(42, index)).collect();
    let mut sorted = seeds.clone();
    sorted.sort_unstable();
    sorted.dedup();
    assert_eq!(sorted.len(), seeds.len());
}

#[test]
fn measurement_table_lists_rows_chain_by_chain() {
    let table = measurements_csv(&[(0, vec![3, 5]), (2, vec![]), (7, vec![11])]);
    assert_eq!(
        table,
        "chain_index,measurement_index,expansion_order\n0,0,3\n0,1,5\n7,0,11\n"
    );
    assert_eq!(measurements_csv(&[]), "chain_index,measurement_index,expansion_order\n");
}

#[test]
fn statistics_accumulate_counter_by_counter() {
    let mut diagonal = DiagonalSweepStats {
        insertions_proposed: 1,
        insertions_accepted: 2,
        removals_proposed: 3,
        removals_accepted: 4,
    };
    diagonal.add_assign(DiagonalSweepStats {
        insertions_proposed: 10,
        insertions_accepted: 20,
        removals_proposed: 30,
        removals_accepted: 40,
    });
    assert_eq!(
        diagonal,
        DiagonalSweepStats {
            insertions_proposed: 11,
            insertions_accepted: 22,
            removals_proposed: 33,
            removals_accepted: 44,
        }
    );
    let mut clusters = ClusterSweepStats::default();
    clusters.add_assign(ClusterSweepStats {
        clusters: 5,
        flipped_clusters: 2,
        vertices_toggled: 3,
        proposals: 1,
        proposals_accepted: 1,
    });
    clusters.add_assign(ClusterSweepStats {
        clusters: 1,
        flipped_clusters: 1,
        vertices_toggled: 0,
        proposals: 1,
        proposals_accepted: 0,
    });
    assert_eq!(
        clusters,
        ClusterSweepStats {
            clusters: 6,
            flipped_clusters: 3,
            vertices_toggled: 3,
            proposals: 2,
            proposals_accepted: 1,
        }
    );
}

#[test]
fn run_records_compare_by_value() {
    assert_ne!(RunStatus::Running, RunStatus::Complete);
    let stats = UpdateStatistics {
        insertions_proposed: 1,
        insertions_accepted: 1,
        removals_proposed: 0,
        removals_accepted: 0,
        clusters: 2,
        flipped_clusters: 1,
        vertices_toggled: 0,
        proposals: 1,
        proposals_accepted: 1,
    };
    assert_eq!(stats, stats.clone());
}

fn fresh_record() -> RunManifest {
    RunManifest {
        artifact_schema_version: ARTIFACT_SCHEMA_VERSION.to_string(),
        run_schema_version: "sse-run-v1".to_string(),
        name: "square".to_string(),
        model: "tfim".to_string(),
        software_version: "0.2.0".to_string(),
        git_revision: None,
        status: RunStatus::Running,
        started_unix_seconds: 100,
        completed_unix_seconds: None,
        attempts: 0,
        requested_chains: 4,
        completed_chains: 0,
        error: None,
        files: Vec::new(),
    }
}

#[test]
fn run_record_lifecycle_counts_attempts_and_lists_files() {
    let mut record = fresh_record();
    record.begin_attempt(1);
    assert_eq!(record.attempts, 1);
    assert_eq!(record.completed_chains, 1);
    record.fail(2, "chain 3 failed".to_string());
    assert_eq!(record.status, RunStatus::Failed);
    assert_eq!(record.error.as_deref(), Some("chain 3 failed"));
    record.begin_attempt(2);
    assert_eq!(record.status, RunStatus::Running);
    assert_eq!(record.error, None);
    assert_eq!(record.attempts, 2);
    record.complete(4, 250);
    assert_eq!(record.status, RunStatus::Complete);
    assert_eq!(record.completed_unix_seconds, Some(250));
    assert_eq!(record.completed_chains, 4);
    assert_eq!(
        record.files,
        vec!["config.resolved.yaml", "checkpoint.json", "measurements.csv", "summary.json"]
    );
    record.attempts = u32::MAX;
    record.begin_attempt(4);
    assert_eq!(record.attempts, u32::MAX);
}
