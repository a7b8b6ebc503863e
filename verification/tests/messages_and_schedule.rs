use quantum_sse::web::{check_web_limits, WebLimitError, MAX_WEB_CHAINS};
use quantum_sse::hamiltonian::{check_support, SupportFault, TermSupport};
use quantum_sse::lattice::LatticeError;
use quantum_sse::sse::schedule::{ScheduleError, SweepPlan, SweepStep};
use quantum_sse::sse::stats::SimulationConfig;
use quantum_sse::sse::{check_term, PositiveWeight, SseModelError, SseTermShape, SseTermSites};
use quantum_sse::OperatorKind;

#[test]
fn model_errors_describe_themselves() {
    assert_eq!(
        SseModelError::EmptyModel.message(),
        "SSE model must contain at least one local term"
    );
    assert_eq!(
        SseModelError::InvalidBasisStateLength { received: 3, expected: 4 }.message(),
        "basis-state length 3 does not match model site count 4"
    );
    assert_eq!(
        SseModelError::InvalidSite { site: 7, num_sites: 5 }.message(),
        "site 7 is invalid for a model with 5 sites"
    );
    assert_eq!(
        SseModelError::InvalidOperatorKind {
            term_index: 2,
            expected: OperatorKind::OffDiagonal,
            received: OperatorKind::Diagonal,
        }
        .message(),
        "term 2 requires operator kind OffDiagonal, but received Diagonal"
    );
    assert_eq!(
        SseModelError::InvalidOperatorReference { position: 12, term_index: 40 }.message(),
        "operator-string position 12 refers to invalid term index 40"
    );
    assert_eq!(
        SseModelError::ZeroMatrixElement { term_index: 0 }.message(),
        "term 0 has zero matrix element on the current state"
    );
    assert_eq!(
        SseModelError::IdenticalEndpoints { site: 3 }.message(),
        "two-site term with identical endpoints must be finite and non-negative; got 3"
    );
    assert_eq!(
        SseModelError::TraceNotClosed.message(),
        "propagated basis state does not return to its initial state"
    );
    assert_eq!(
        SseModelError::GeometryError("bad shell".to_string()).message(),
        "geometry error: bad shell"
    );
    assert_eq!(
        SseModelError::InvalidTermIndex { term_index: 9, num_terms: 4 }.message(),
        "term index 9 is invalid for a model with 4 terms"
    );
}

#[test]
fn lattice_errors_describe_themselves() {
    assert_eq!(LatticeError::EmptyLattice.message(), "a lattice must contain at least one site");
    assert_eq!(
        LatticeError::InvalidSite { site: 8, num_sites: 3 }.message(),
        "site 8 is invalid for a lattice with 3 sites"
    );
    assert_eq!(
        LatticeError::SelfBond { site: 2 }.message(),
        "a bond cannot connect site 2 to itself"
    );
    assert_eq!(
        LatticeError::DuplicateBond { sites: (1, 4) }.message(),
        "duplicate bond detected between sites 1 and 4"
    );
}

#[test]
fn terms_are_checked_site_first_then_classification() {
    let shape = |sites, kind| SseTermShape { sites, kind, positive: PositiveWeight::Always };
    assert!(check_term(shape(SseTermSites::Site(1), OperatorKind::OffDiagonal), 0, 2).is_ok());
    assert!(matches!(
        check_term(shape(SseTermSites::Bond(0, 5), OperatorKind::Identity), 3, 2),
        Err(SseModelError::InvalidSite { site: 5, num_sites: 2 })
    ));
    assert!(matches!(
        check_term(shape(SseTermSites::Bond(1, 1), OperatorKind::Diagonal), 0, 2),
        Err(SseModelError::IdenticalEndpoints { site: 1 })
    ));
    assert!(matches!(
        check_term(shape(SseTermSites::Site(0), OperatorKind::Identity), 4, 2),
        Err(SseModelError::InvalidOperatorKind {
            term_index: 4,
            expected: OperatorKind::Diagonal,
            received: OperatorKind::Identity,
        })
    ));
}

#[test]
fn supports_must_lie_inside_the_system() {
    assert_eq!(check_support(TermSupport::Site(2), 3), Ok(()));
    assert_eq!(
        check_support(TermSupport::Site(3), 3),
        Err(SupportFault::InvalidSite { site: 3, num_sites: 3 })
    );
    assert_eq!(
        check_support(TermSupport::Pair(0, 9), 3),
        Err(SupportFault::InvalidSite { site: 9, num_sites: 3 })
    );
    assert_eq!(
        check_support(TermSupport::Pair(1, 1), 3),
        Err(SupportFault::RepeatedSite { support: TermSupport::Pair(1, 1) })
    );
    assert_eq!(check_support(TermSupport::Pair(0, 2), 3), Ok(()));
}

#[test]
fn sweep_plan_thermalizes_then_alternates_sweeps_and_records() {
    let config = SimulationConfig {
        thermalization_sweeps: 2,
        measurement_sweeps: 2,
        sweeps_per_measurement: 3,
    };
    let mut plan = SweepPlan::new(config).unwrap();
    let mut steps = Vec::new();
    loop {
        let step = plan.next_step();
        steps.push(step);
        if step == SweepStep::Done {
            break;
        }
    }
    let sweeps = |step: SweepStep, count: usize| vec![step; count];
    let mut expected = sweeps(SweepStep::Thermalize, 2);
    for _ in 0..2 {
        expected.extend(sweeps(SweepStep::Measure, 3));
        expected.push(SweepStep::Record);
    }
    expected.push(SweepStep::Done);
    assert_eq!(steps, expected);
    assert_eq!(plan.next_step(), SweepStep::Done);
}

#[test]
fn sweep_plan_rejects_schedules_without_measurements() {
    let mut config = SimulationConfig {
        thermalization_sweeps: 1,
        measurement_sweeps: 0,
        sweeps_per_measurement: 0,
    };
    assert!(matches!(SweepPlan::new(config), Err(ScheduleError::NoMeasurements)));
    config.measurement_sweeps = 4;
    assert!(matches!(SweepPlan::new(config), Err(ScheduleError::NoSweepsPerMeasurement)));
}

#[test]
fn browser_limits_cap_sites_by_model_and_chains() {
    assert_eq!(check_web_limits(36, false, 16), Ok(()));
    assert_eq!(
        check_web_limits(37, false, 1),
        Err(WebLimitError::TooManySites { limit: 36, num_sites: 37 })
    );
    assert_eq!(check_web_limits(16, true, 1), Ok(()));
    assert_eq!(
        check_web_limits(25, true, 1),
        Err(WebLimitError::TooManySites { limit: 16, num_sites: 25 })
    );
    assert_eq!(check_web_limits(4, false, 17), Err(WebLimitError::TooManyChains { limit: 16 }));
    assert_eq!(
        check_web_limits(40, true, 40),
        Err(WebLimitError::TooManySites { limit: 16, num_sites: 40 })
    );
    assert_eq!(
        WebLimitError::TooManySites { limit: 36, num_sites: 49 }.message(),
        "browser runs are limited to 36 sites; got 49. \
         Export the configuration and run it with the installed sse binary."
    );
    assert_eq!(
        WebLimitError::TooManyChains { limit: MAX_WEB_CHAINS }.message(),
        "browser runs are limited to 16 chains"
    );
}
