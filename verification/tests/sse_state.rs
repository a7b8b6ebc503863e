use quantum_sse::sse::clusters::ClusterPlan;
use quantum_sse::sse::state::{distinct_pair, Operator, SSEState, NO_TERM};
use quantum_sse::sse::union_find::UnionFind;
use quantum_sse::sse::{PositiveWeight, SseModelError, SseStructure, SseTermShape, SseTermSites};
use quantum_sse::{OperatorKind, Spin};

const FIELD_KEY: u64 = 0x3ff0_0000_0000_0000;

fn shape(sites: SseTermSites, kind: OperatorKind, positive: PositiveWeight) -> SseTermShape {
    SseTermShape { sites, kind, positive }
}

/// Terms in the order of a transverse-field Ising decomposition: bonds, then
/// a site constant and a spin flip per site.
fn tfim_structure(num_sites: u32, bonds: &[(u32, u32)]) -> SseStructure {
    let mut terms = Vec::new();
    let mut keys = Vec::new();
    for &(i, j) in bonds {
        terms.push(shape(SseTermSites::Bond(i, j), OperatorKind::Diagonal, PositiveWeight::Aligned));
        keys.push(None);
    }
    for site in 0..num_sites {
        terms.push(shape(SseTermSites::Site(site), OperatorKind::Diagonal, PositiveWeight::Always));
        keys.push(Some(FIELD_KEY));
        terms.push(shape(SseTermSites::Site(site), OperatorKind::OffDiagonal, PositiveWeight::Always));
        keys.push(Some(FIELD_KEY));
    }
    SseStructure::new(num_sites as usize, terms, keys, true).unwrap()
}

#[test]
fn structure_pairs_transverse_vertices_and_lists_diagonal_terms() {
    let model = tfim_structure(2, &[(0, 1)]);
    assert_eq!(model.num_sites(), 2);
    assert_eq!(model.num_terms(), 5);
    assert_eq!(model.diagonal_term_indices(), &[0, 1, 3]);
    assert_eq!(model.transverse_partner(0), None);
    assert_eq!(model.transverse_partner(1), Some(2));
    assert_eq!(model.transverse_partner(2), Some(1));
    assert_eq!(model.transverse_partner(3), Some(4));
    assert_eq!(model.transverse_partner(4), Some(3));
    assert_eq!(model.transverse_partner(9), None);
    assert!(model.supports_tfim_cluster_update());
    assert_eq!(model.operator_kind(2).unwrap(), OperatorKind::OffDiagonal);
    assert!(matches!(
        model.operator_kind(5),
        Err(SseModelError::InvalidTermIndex { term_index: 5, num_terms: 5 })
    ));
    assert_eq!(model.term(0).map(|term| term.sites), Some(SseTermSites::Bond(0, 1)));
    assert!(model.term(5).is_none());
}

#[test]
fn the_cluster_flag_follows_the_vertex_shapes() {
    // A zero field and a zero coupling leave transverse-field Ising vertices.
    let terms = vec![
        shape(SseTermSites::Bond(0, 1), OperatorKind::Diagonal, PositiveWeight::Never),
        shape(SseTermSites::Site(0), OperatorKind::Diagonal, PositiveWeight::Never),
        shape(SseTermSites::Site(0), OperatorKind::OffDiagonal, PositiveWeight::Never),
        shape(SseTermSites::Site(1), OperatorKind::Diagonal, PositiveWeight::Never),
        shape(SseTermSites::Site(1), OperatorKind::OffDiagonal, PositiveWeight::Never),
    ];
    let keys = vec![None, Some(0), Some(0), Some(0), Some(0)];
    let zero_field = SseStructure::new(2, terms, keys, true).unwrap();
    assert!(zero_field.supports_tfim_cluster_update());
    // Rydberg vertices cannot take the cluster breakup, whatever is asked.
    let rydberg = SseStructure::new(
        2,
        vec![
            shape(SseTermSites::Bond(0, 1), OperatorKind::Diagonal, PositiveWeight::NotBothOccupied),
            shape(SseTermSites::Site(0), OperatorKind::Diagonal, PositiveWeight::Occupied),
        ],
        vec![None, None],
        true,
    )
    .unwrap();
    assert!(!rydberg.supports_tfim_cluster_update());
    assert!(!tfim_structure_unrequested().supports_tfim_cluster_update());
}

fn tfim_structure_unrequested() -> SseStructure {
    SseStructure::new(
        1,
        vec![
            shape(SseTermSites::Site(0), OperatorKind::Diagonal, PositiveWeight::Always),
            shape(SseTermSites::Site(0), OperatorKind::OffDiagonal, PositiveWeight::Always),
        ],
        vec![Some(FIELD_KEY), Some(FIELD_KEY)],
        false,
    )
    .unwrap()
}

#[test]
fn structure_rejects_invalid_terms_in_order() {
    let always = PositiveWeight::Always;
    assert!(matches!(
        SseStructure::new(2, vec![], vec![], false),
        Err(SseModelError::EmptyModel)
    ));
    assert!(matches!(
        SseStructure::new(
            2,
            vec![
                shape(SseTermSites::Site(2), OperatorKind::Diagonal, always),
                shape(SseTermSites::Bond(1, 1), OperatorKind::Diagonal, always),
            ],
            vec![None, None],
            false
        ),
        Err(SseModelError::InvalidSite { site: 2, num_sites: 2 })
    ));
    assert!(matches!(
        SseStructure::new(
            2,
            vec![shape(SseTermSites::Bond(1, 1), OperatorKind::Diagonal, always)],
            vec![None],
            false
        ),
        Err(SseModelError::IdenticalEndpoints { site: 1 })
    ));
    assert!(matches!(
        SseStructure::new(
            2,
            vec![shape(SseTermSites::Bond(0, 1), OperatorKind::OffDiagonal, always)],
            vec![None],
            false
        ),
        Err(SseModelError::InvalidOperatorKind {
            term_index: 0,
            expected: OperatorKind::Diagonal,
            received: OperatorKind::OffDiagonal,
        })
    ));
}

#[test]
fn weights_follow_the_positive_configurations() {
    let model = SseStructure::new(
        2,
        vec![
            shape(SseTermSites::Bond(0, 1), OperatorKind::Diagonal, PositiveWeight::Aligned),
            shape(SseTermSites::Site(0), OperatorKind::Diagonal, PositiveWeight::Occupied),
            shape(SseTermSites::Site(0), OperatorKind::Diagonal, PositiveWeight::Empty),
            shape(SseTermSites::Bond(0, 1), OperatorKind::Diagonal, PositiveWeight::NotBothOccupied),
            shape(SseTermSites::Bond(0, 1), OperatorKind::Diagonal, PositiveWeight::BothOccupied),
            shape(SseTermSites::Site(1), OperatorKind::Diagonal, PositiveWeight::Never),
        ],
        vec![None; 6],
        false,
    )
    .unwrap();
    let up_up = [Spin::Up, Spin::Up];
    let up_down = [Spin::Up, Spin::Down];
    assert!(model.weight_positive(0, &up_up));
    assert!(!model.weight_positive(0, &up_down));
    assert!(model.weight_positive(1, &up_down));
    assert!(!model.weight_positive(2, &up_down));
    assert!(!model.weight_positive(3, &up_up));
    assert!(model.weight_positive(3, &up_down));
    assert!(model.weight_positive(4, &up_up));
    assert!(!model.weight_positive(4, &up_down));
    assert!(!model.weight_positive(5, &up_up));
    assert!(model.diagonal_term_indices().len() == 6);
    assert!(!model.supports_tfim_cluster_update());
}

#[test]
fn new_state_is_identity_filled_and_validated() {
    let model = tfim_structure(2, &[(0, 1)]);
    let state = SSEState::new(&model, vec![Spin::Up, Spin::Down], 6).unwrap();
    assert_eq!(state.operator_string_length(), 6);
    assert_eq!(state.expansion_order(), 0);
    assert_eq!(state.basis_state(), &[Spin::Up, Spin::Down]);
    assert!(state
        .operator_string()
        .iter()
        .all(|operator| operator.kind == OperatorKind::Identity && operator.term_index == NO_TERM));
    assert!(state.validate_trace(&model).is_ok());
    assert!(matches!(
        SSEState::new(&model, vec![Spin::Up], 6),
        Err(SseModelError::InvalidBasisStateLength { received: 1, expected: 2 })
    ));
    assert!(matches!(
        SSEState::new(&model, vec![Spin::Up, Spin::Up], 0),
        Err(SseModelError::InvalidOperatorStringLength)
    ));
}

#[test]
fn operators_report_their_terms() {
    assert_eq!(Operator::identity().term_index(), None);
    assert_eq!(Operator::diagonal(3).term_index(), Some(3));
    assert_eq!(Operator::off_diagonal(4).kind, OperatorKind::OffDiagonal);
}

#[test]
fn diagonal_insertion_and_removal_track_the_expansion_order() {
    let model = tfim_structure(2, &[(0, 1)]);
    let mut state = SSEState::new(&model, vec![Spin::Up, Spin::Up], 4).unwrap();
    state.insert_diagonal(1, 0);
    state.insert_diagonal(3, 1);
    assert_eq!(state.expansion_order(), 2);
    assert!(state.validate_trace(&model).is_ok());
    state.remove_diagonal(1);
    assert_eq!(state.expansion_order(), 1);
    assert_eq!(state.operator_string()[1].kind, OperatorKind::Identity);
}

#[test]
fn a_zero_weight_operator_stops_propagation() {
    let model = tfim_structure(2, &[(0, 1)]);
    let mut state = SSEState::new(&model, vec![Spin::Up, Spin::Down], 4).unwrap();
    state.insert_diagonal(2, 0);
    assert!(matches!(
        state.propagate(&model),
        Err(SseModelError::ZeroMatrixElement { term_index: 0 })
    ));
}

#[test]
fn a_single_spin_flip_leaves_the_trace_open() {
    let model = tfim_structure(2, &[(0, 1)]);
    let mut state = SSEState::new(&model, vec![Spin::Up, Spin::Up], 4).unwrap();
    state.insert_diagonal(0, 1);
    state.toggle_transverse(0, &model).unwrap();
    assert_eq!(state.operator_string()[0].kind, OperatorKind::OffDiagonal);
    assert_eq!(state.operator_string()[0].term_index, 2);
    let propagation = state.propagate(&model).unwrap();
    assert_eq!(propagation.final_state, vec![Spin::Down, Spin::Up]);
    assert!(!propagation.trace_closed);
    assert!(matches!(state.validate_trace(&model), Err(SseModelError::TraceNotClosed)));
    assert!(matches!(
        state.toggle_transverse(1, &model),
        Err(SseModelError::InvalidOperatorReference { position: 1, term_index: NO_TERM })
    ));
}

#[test]
fn headroom_grows_by_a_third_with_identity_padding() {
    let model = tfim_structure(1, &[]);
    let mut state = SSEState::new(&model, vec![Spin::Up], 12).unwrap();
    assert!(state.ensure_operator_headroom());
    assert_eq!(state.operator_string_length(), 28);
    assert!(!state.ensure_operator_headroom());
    state.grow_operator_string(10);
    assert_eq!(state.operator_string_length(), 28);
    state.grow_operator_string(40);
    assert_eq!(state.operator_string_length(), 40);
    assert_eq!(state.expansion_order(), 0);
}

#[test]
fn off_diagonal_terms_flip_their_site() {
    let model = tfim_structure(2, &[(0, 1)]);
    let mut spins = vec![Spin::Up, Spin::Up];
    model.apply_off_diagonal(4, &mut spins).unwrap();
    assert_eq!(spins, vec![Spin::Up, Spin::Down]);
    assert!(matches!(
        model.apply_off_diagonal(3, &mut spins),
        Err(SseModelError::InvalidOperatorKind {
            term_index: 3,
            expected: OperatorKind::OffDiagonal,
            received: OperatorKind::Diagonal,
        })
    ));
    assert!(matches!(
        model.apply_off_diagonal(7, &mut spins),
        Err(SseModelError::InvalidTermIndex { term_index: 7, num_terms: 5 })
    ));
}

#[test]
fn transverse_positions_list_partnered_single_site_vertices() {
    let model = tfim_structure(2, &[(0, 1)]);
    let mut state = SSEState::new(&model, vec![Spin::Up, Spin::Up], 6).unwrap();
    state.insert_diagonal(0, 1);
    state.insert_diagonal(1, 0);
    state.insert_diagonal(2, 3);
    state.insert_diagonal(4, 1);
    assert_eq!(state.transverse_positions(&model, 0), vec![0, 4]);
    assert_eq!(state.transverse_positions(&model, 1), vec![2]);
}

#[test]
fn distinct_pairs_skip_the_first_index() {
    assert_eq!(distinct_pair(5, 2, 1), (2, 1));
    assert_eq!(distinct_pair(5, 2, 2), (2, 3));
    assert_eq!(distinct_pair(2, 0, 0), (0, 1));
    assert_eq!(distinct_pair(2, 1, 0), (1, 0));
}

#[test]
fn union_find_joins_classes() {
    let mut forest = UnionFind::new();
    for _ in 0..5 {
        forest.add();
    }
    assert_eq!(forest.len(), 5);
    forest.union(0, 1);
    forest.union(3, 4);
    assert_eq!(forest.find(0), forest.find(1));
    assert_ne!(forest.find(1), forest.find(3));
    forest.union(1, 4);
    assert_eq!(forest.find(0), forest.find(3));
    assert_ne!(forest.find(2), forest.find(0));
}

#[test]
fn cluster_flip_toggles_vertices_between_differently_flipped_legs() {
    let model = tfim_structure(2, &[(0, 1)]);
    let mut state = SSEState::new(&model, vec![Spin::Up, Spin::Down], 4).unwrap();
    state.insert_diagonal(0, 1);
    state.insert_diagonal(2, 1);
    let mut plan = ClusterPlan::build(&state, &model).unwrap();
    let coins_needed = plan.coins_needed();
    assert_eq!(coins_needed, 3);
    let order = state.expansion_order();
    let stats = plan.apply(&mut state, &[true, false, true]);
    assert_eq!(state.expansion_order(), order);
    assert!(stats.flipped_clusters <= stats.clusters);
    assert_eq!(state.operator_string()[1].kind, OperatorKind::Identity);
    assert_eq!(state.operator_string()[3].kind, OperatorKind::Identity);
    assert_eq!(stats.clusters, 3);
    assert_eq!(stats.flipped_clusters, 2);
    assert_eq!(stats.vertices_toggled, 2);
    assert_eq!(stats.proposals, 1);
    assert_eq!(stats.proposals_accepted, 0);
    assert_eq!(state.basis_state(), &[Spin::Down, Spin::Up]);
    assert_eq!(state.operator_string()[0].kind, OperatorKind::OffDiagonal);
    assert_eq!(state.operator_string()[0].term_index, 2);
    assert_eq!(state.operator_string()[2].kind, OperatorKind::OffDiagonal);
    assert!(state.validate_trace(&model).is_ok());
}

#[test]
fn a_bond_joins_both_world_lines_into_one_cluster() {
    let model = tfim_structure(2, &[(0, 1)]);
    let mut state = SSEState::new(&model, vec![Spin::Up, Spin::Up], 4).unwrap();
    state.insert_diagonal(0, 0);
    state.insert_diagonal(2, 1);
    let mut plan = ClusterPlan::build(&state, &model).unwrap();
    assert_eq!(plan.coins_needed(), 1);
    let stats = plan.apply(&mut state, &[true]);
    assert_eq!(stats.clusters, 1);
    assert_eq!(stats.flipped_clusters, 1);
    assert_eq!(stats.vertices_toggled, 0);
    assert_eq!(state.basis_state(), &[Spin::Down, Spin::Down]);
    assert_eq!(state.operator_string()[2].kind, OperatorKind::Diagonal);
    assert!(state.validate_trace(&model).is_ok());
}

#[test]
fn an_empty_string_gives_every_site_its_own_coin() {
    let model = tfim_structure(3, &[]);
    let mut state = SSEState::new(&model, vec![Spin::Up, Spin::Up, Spin::Up], 2).unwrap();
    let mut plan = ClusterPlan::build(&state, &model).unwrap();
    assert_eq!(plan.coins_needed(), 3);
    let stats = plan.apply(&mut state, &[false, true, false]);
    assert_eq!(stats.clusters, 3);
    assert_eq!(stats.flipped_clusters, 1);
    assert_eq!(state.basis_state(), &[Spin::Up, Spin::Down, Spin::Up]);
}

#[test]
fn cluster_construction_rejects_a_reference_to_a_missing_term() {
    let model = tfim_structure(2, &[(0, 1)]);
    let mut state = SSEState::new(&model, vec![Spin::Up, Spin::Up], 4).unwrap();
    state.insert_diagonal(0, 1);
    state.insert_diagonal(1, 99);
    state.insert_diagonal(3, 123);
    assert!(matches!(
        ClusterPlan::build(&state, &model),
        Err(SseModelError::InvalidOperatorReference { position: 1, term_index: 99 })
    ));
}

#[test]
fn tfim_cluster_update_accepts_and_keeps_the_trace_closed() {
    let model = tfim_structure(2, &[(0, 1)]);
    let mut state = SSEState::new(&model, vec![Spin::Up, Spin::Down], 4).unwrap();
    state.insert_diagonal(0, 1);
    state.insert_diagonal(2, 1);
    let order = state.expansion_order();
    let mut plan = ClusterPlan::build(&state, &model).unwrap();
    assert_eq!(plan.coins_needed(), 3);
    let stats = plan.apply_tfim(&mut state, &model, &[true, false, true]).unwrap();
    assert_eq!(stats.proposals, 1);
    assert_eq!(stats.proposals_accepted, 1);
    assert_eq!(stats.clusters, 3);
    assert_eq!(stats.flipped_clusters, 2);
    assert_eq!(stats.vertices_toggled, 2);
    assert_eq!(state.expansion_order(), order);
    assert_eq!(state.operator_string()[0].term_index, 2);
    assert!(state.validate_trace(&model).is_ok());
}

#[test]
fn tfim_cluster_update_reports_a_trace_that_stays_open() {
    let model = tfim_structure(1, &[]);
    let mut state = SSEState::new(&model, vec![Spin::Up], 2).unwrap();
    state.insert_diagonal(0, 0);
    state.toggle_transverse(0, &model).unwrap();
    assert!(state.validate_trace(&model).is_err());
    let mut plan = ClusterPlan::build(&state, &model).unwrap();
    let coins = vec![false; plan.coins_needed()];
    assert!(matches!(
        plan.apply_tfim(&mut state, &model, &coins),
        Err(SseModelError::TraceNotClosed)
    ));
}
