use quantum_sse::geometry::{
    all_pairs, extent_site_count, rectangular_coordinates, rectangular_site_index, Axis,
    BoundaryCondition, Extent, ExtentFault,
};
use quantum_sse::hamiltonian::{supports_operator, LocalOperatorKind, TermSupport};
use quantum_sse::lattice::{Bond, Lattice, LatticeError};
use quantum_sse::{OperatorKind, Spin};

#[test]
fn flip_twice_returns_the_original_spin() {
    for spin in [Spin::Up, Spin::Down] {
        assert_ne!(spin.flip(), spin);
        assert_eq!(spin.flip().flip(), spin);
        assert_eq!(spin.flip().value(), -spin.value());
    }
    assert_eq!(Spin::Up.value(), 1);
    assert_eq!(Spin::Down.value(), -1);
}

#[test]
fn operator_kinds_are_distinct() {
    assert_ne!(OperatorKind::Identity, OperatorKind::Diagonal);
    assert_ne!(OperatorKind::Diagonal, OperatorKind::OffDiagonal);
}

#[test]
fn bond_canonicalizes_endpoint_order() {
    let bond = Bond::new(5, 2).unwrap();
    assert_eq!(bond.sites(), (2, 5));
    assert_eq!(bond.first_site(), 2);
    assert_eq!(bond.second_site(), 5);
    assert_eq!(Bond::new(2, 5).unwrap(), bond);
}

#[test]
fn bond_rejects_a_self_loop() {
    assert!(matches!(Bond::new(3, 3), Err(LatticeError::SelfBond { site: 3 })));
}

#[test]
fn lattice_from_pairs_keeps_input_order_and_canonicalizes() {
    let lattice = Lattice::from_pairs(4, vec![(1, 0), (1, 2), (3, 2)]).unwrap();
    assert_eq!(lattice.num_sites(), 4);
    assert_eq!(lattice.num_bonds(), 3);
    let sites: Vec<(u32, u32)> = lattice.bonds().iter().map(|bond| bond.sites()).collect();
    assert_eq!(sites, vec![(0, 1), (1, 2), (2, 3)]);
    assert_eq!(lattice.bond(1).map(|bond| bond.sites()), Some((1, 2)));
    assert!(lattice.bond(3).is_none());
}

#[test]
fn lattice_rejects_empty_out_of_range_self_and_duplicate_bonds() {
    assert!(matches!(Lattice::from_pairs(0, vec![]), Err(LatticeError::EmptyLattice)));
    assert!(matches!(
        Lattice::from_pairs(3, vec![(0, 1), (1, 3)]),
        Err(LatticeError::InvalidSite { site: 3, num_sites: 3 })
    ));
    assert!(matches!(
        Lattice::from_pairs(3, vec![(2, 2)]),
        Err(LatticeError::SelfBond { site: 2 })
    ));
    assert!(matches!(
        Lattice::from_pairs(3, vec![(0, 1), (1, 0)]),
        Err(LatticeError::DuplicateBond { sites: (0, 1) })
    ));
}

#[test]
fn lattice_reports_the_first_fault_in_input_order() {
    assert!(matches!(
        Lattice::from_pairs(3, vec![(1, 1), (0, 7)]),
        Err(LatticeError::SelfBond { site: 1 })
    ));
}

#[test]
fn rectangular_indexing_is_row_major_and_round_trips() {
    assert_eq!(rectangular_site_index(3, 2, 2, 1), Some(5));
    assert_eq!(rectangular_site_index(3, 2, 0, 0), Some(0));
    assert_eq!(rectangular_site_index(3, 2, 3, 0), None);
    assert_eq!(rectangular_site_index(3, 2, 0, 2), None);
    for site in 0..6usize {
        let (x, y) = rectangular_coordinates(3, site);
        assert_eq!(rectangular_site_index(3, 2, x, y), Some(site as u32));
    }
    assert_eq!(rectangular_coordinates(4, 9), (1, 2));
}

#[test]
fn all_pairs_enumerates_each_unordered_pair_once() {
    assert_eq!(all_pairs(4), vec![(0, 1), (0, 2), (0, 3), (1, 2), (1, 3), (2, 3)]);
    assert!(all_pairs(1).is_empty());
    assert_eq!(all_pairs(6).len(), 15);
}

#[test]
fn boundary_conditions_are_distinct() {
    assert_ne!(BoundaryCondition::Open, BoundaryCondition::Periodic);
}

#[test]
fn pair_support_orders_sites_and_rejects_repeats() {
    assert_eq!(TermSupport::site(4), TermSupport::Site(4));
    assert_eq!(TermSupport::pair(7, 2).unwrap(), TermSupport::Pair(2, 7));
    assert_eq!(TermSupport::pair(2, 7).unwrap(), TermSupport::Pair(2, 7));
    assert_eq!(
        TermSupport::pair(12, 12).unwrap_err(),
        "a two-site term cannot act twice on site 12"
    );
}

#[test]
fn operators_fit_only_their_support() {
    let site = TermSupport::Site(0);
    let pair = TermSupport::Pair(0, 1);
    assert!(supports_operator(site, LocalOperatorKind::SpinX));
    assert!(supports_operator(site, LocalOperatorKind::Number));
    assert!(supports_operator(site, LocalOperatorKind::Identity));
    assert!(!supports_operator(site, LocalOperatorKind::SpinZZ));
    assert!(supports_operator(pair, LocalOperatorKind::SpinZZ));
    assert!(supports_operator(pair, LocalOperatorKind::NumberNumber));
    assert!(!supports_operator(pair, LocalOperatorKind::SpinX));
    assert!(!LocalOperatorKind::SpinX.is_diagonal_in_z_basis());
    assert!(LocalOperatorKind::SpinZZ.is_diagonal_in_z_basis());
    assert!(LocalOperatorKind::Number.is_diagonal_in_z_basis());
}

#[test]
fn extents_count_sites_and_reject_unusable_geometries() {
    assert_eq!(extent_site_count(Extent::Chain { length: 5 }), Ok(5));
    assert_eq!(extent_site_count(Extent::Rectangular { lx: 3, ly: 4 }), Ok(12));
    assert_eq!(extent_site_count(Extent::Points { count: 2 }), Ok(2));
    assert_eq!(extent_site_count(Extent::Chain { length: 0 }), Err(ExtentFault::ZeroLength));
    assert_eq!(
        extent_site_count(Extent::Rectangular { lx: 0, ly: 0 }),
        Err(ExtentFault::ZeroDimension { axis: Axis::X })
    );
    assert_eq!(
        extent_site_count(Extent::Rectangular { lx: 2, ly: 0 }),
        Err(ExtentFault::ZeroDimension { axis: Axis::Y })
    );
    assert_eq!(
        extent_site_count(Extent::Rectangular { lx: usize::MAX, ly: 2 }),
        Err(ExtentFault::SiteCountOverflow)
    );
    assert_eq!(
        extent_site_count(Extent::Points { count: 0 }),
        Err(ExtentFault::EmptyCustomGeometry)
    );
    assert_eq!(
        extent_site_count(Extent::Rectangular { lx: 70_000, ly: 70_000 }),
        Err(ExtentFault::TooManySites { num_sites: 4_900_000_000 })
    );
}
