//! The sweep schedule of a simulation run: thermalization sweeps first, then
//! for every measurement a fixed number of sweeps followed by one recording.

use vstd::prelude::*;

use crate::engine::{schedule_complete, schedule_step, Schedule};
use crate::sse::stats::SimulationConfig;

verus! {

/// What a run does next.
#[derive(Clone, Copy, Debug, PartialEq, Eq, Structural)]
pub enum SweepStep {
    /// One complete update sweep whose result is discarded.
    Thermalize,
    /// One complete update sweep toward the next measurement.
    Measure,
    /// Record the expansion order as the next measurement.
    Record,
    /// Every configured measurement is recorded.
    Done,
}

/// A schedule that cannot record any measurement.
#[derive(Clone, Copy, Debug, PartialEq, Eq, Structural)]
pub enum ScheduleError {
    /// `measurement_sweeps` is zero.
    NoMeasurements,
    /// `sweeps_per_measurement` is zero.
    NoSweepsPerMeasurement,
}

/// The step a plan takes from `thermalization` outstanding thermalization
/// sweeps, `measurements` outstanding recordings, and `into` sweeps toward
/// the next recording, with `per` sweeps per recording, and the counters it
/// leaves.
pub open spec fn plan_next(thermalization: nat, measurements: nat, into: nat, per: nat) -> (
    SweepStep,
    nat,
    nat,
    nat,
) {
    if thermalization > 0 {
        (SweepStep::Thermalize, (thermalization - 1) as nat, measurements, into)
    } else if measurements == 0 {
        (SweepStep::Done, thermalization, measurements, into)
    } else if into == per {
        (SweepStep::Record, thermalization, (measurements - 1) as nat, 0)
    } else {
        (SweepStep::Measure, thermalization, measurements, into + 1)
    }
}

/// The chain-engine schedule that a plan's counters stand for: a recording
/// that is due counts as done.
pub open spec fn as_schedule(thermalization: nat, measurements: nat, into: nat, per: nat) -> Schedule {
    if into == per && measurements > 0 {
        Schedule {
            thermalization_remaining: thermalization,
            measurements_remaining: (measurements - 1) as nat,
            sweeps_into_measurement: 0,
            recorded: 0,
            sweeps: 0,
        }
    } else {
        Schedule {
            thermalization_remaining: thermalization,
            measurements_remaining: measurements,
            sweeps_into_measurement: into,
            recorded: 0,
            sweeps: 0,
        }
    }
}

/// Whether two schedules have the same outstanding work.
pub open spec fn same_progress(left: Schedule, right: Schedule) -> bool {
    &&& left.thermalization_remaining == right.thermalization_remaining
    &&& left.measurements_remaining == right.measurements_remaining
    &&& left.sweeps_into_measurement == right.sweeps_into_measurement
}

/// A run driven by a sweep plan and a chain driven by the chain engine
/// perform the same sweeps and recordings: every sweep of the plan moves the
/// schedule it stands for exactly as one engine sweep moves the engine's
/// schedule, a recording leaves it unchanged, the plan is done only when the
/// engine's schedule is complete, and a complete schedule leaves at most the
/// last recording to the plan.
pub proof fn lemma_plan_follows_engine_schedule(
    thermalization: nat,
    measurements: nat,
    into: nat,
    per: nat,
)
    requires
        per > 0,
        into <= per,
        measurements == 0 ==> into == 0,
    ensures
        ({
            let (step, t, m, i) = plan_next(thermalization, measurements, into, per);
            let before = as_schedule(thermalization, measurements, into, per);
            let after = as_schedule(t, m, i, per);
            &&& (step == SweepStep::Thermalize || step == SweepStep::Measure) ==> same_progress(
                after,
                schedule_step(before, per),
            )
            &&& step == SweepStep::Record ==> same_progress(after, before)
            &&& step == SweepStep::Done ==> schedule_complete(before)
            &&& schedule_complete(before) ==> (step == SweepStep::Done || (step == SweepStep::Record
                && m == 0))
            &&& before.sweeps_into_measurement < per
        }),
{
}

/// Progress through the sweep schedule of one run.
pub struct SweepPlan {
    thermalization_remaining: usize,
    measurements_remaining: usize,
    sweeps_into_measurement: usize,
    sweeps_per_measurement: usize,
}

impl SweepPlan {
    /// At least one sweep per measurement, and the sweeps toward the current
    /// measurement never exceed that number.
    pub closed spec fn wf(&self) -> bool {
        &&& self.sweeps_per_measurement > 0
        &&& self.sweeps_into_measurement <= self.sweeps_per_measurement
        &&& self.measurements_remaining == 0 ==> self.sweeps_into_measurement == 0
    }

    /// Sweeps still to perform.
    pub closed spec fn pending_sweeps(&self) -> nat {
        (self.thermalization_remaining + self.measurements_remaining * self.sweeps_per_measurement
            - self.sweeps_into_measurement) as nat
    }

    /// Thermalization sweeps still to perform.
    pub closed spec fn pending_thermalization(&self) -> nat {
        self.thermalization_remaining as nat
    }

    /// Measurements still to record.
    pub closed spec fn pending_records(&self) -> nat {
        self.measurements_remaining as nat
    }

    /// Sweeps performed toward the next measurement.
    pub closed spec fn sweeps_since_record(&self) -> nat {
        self.sweeps_into_measurement as nat
    }

    /// Sweeps performed before each measurement.
    pub closed spec fn sweeps_per_record(&self) -> nat {
        self.sweeps_per_measurement as nat
    }

    /// Starts the schedule of `config`.
    ///
    /// Fails when the configuration records no measurement or asks for no
    /// sweep between measurements, checked in that order.
    pub fn new(config: SimulationConfig) -> (result: Result<SweepPlan, ScheduleError>)
        ensures
            config.measurement_sweeps == 0 ==> result == Err::<SweepPlan, ScheduleError>(
                ScheduleError::NoMeasurements,
            ),
            config.measurement_sweeps > 0 && config.sweeps_per_measurement == 0 ==> result
                == Err::<SweepPlan, ScheduleError>(ScheduleError::NoSweepsPerMeasurement),
            config.measurement_sweeps > 0 && config.sweeps_per_measurement > 0 ==> (result matches Ok(
                plan,
            ) && plan.wf() && plan.pending_thermalization() == config.thermalization_sweeps
                && plan.pending_records() == config.measurement_sweeps && plan.sweeps_since_record() == 0
                && plan.sweeps_per_record() == config.sweeps_per_measurement && plan.pending_sweeps()
                == config.thermalization_sweeps + config.measurement_sweeps
                * config.sweeps_per_measurement),
    {
        if config.measurement_sweeps == 0 {
            return Err(ScheduleError::NoMeasurements);
        }
        if config.sweeps_per_measurement == 0 {
            return Err(ScheduleError::NoSweepsPerMeasurement);
        }
        SweepPlan::start(config.thermalization_sweeps, config.measurement_sweeps, config.sweeps_per_measurement)
    }

    fn start(thermalization: usize, measurements: usize, per_measurement: usize) -> (result: Result<
        SweepPlan,
        ScheduleError,
    >)
        requires
            measurements > 0,
            per_measurement > 0,
        ensures
            result matches Ok(plan) && plan.wf() && plan.pending_thermalization() == thermalization
                && plan.pending_records() == measurements && plan.sweeps_since_record() == 0
                && plan.sweeps_per_record() == per_measurement && plan.pending_sweeps() == thermalization
                + measurements * per_measurement,
    {
        Ok(
            SweepPlan {
                thermalization_remaining: thermalization,
                measurements_remaining: measurements,
                sweeps_into_measurement: 0,
                sweeps_per_measurement: per_measurement,
            },
        )
    }

    /// Advances the schedule by one step and reports it.
    ///
    /// Thermalization sweeps come first; then each measurement takes its
    /// sweeps and one recording; the plan is done exactly when no sweep and
    /// no recording remains.
    pub fn next_step(&mut self) -> (step: SweepStep)
        requires
            old(self).wf(),
        ensures
            final(self).wf(),
            plan_next(
                old(self).pending_thermalization(),
                old(self).pending_records(),
                old(self).sweeps_since_record(),
                old(self).sweeps_per_record(),
            ) == (
                step,
                final(self).pending_thermalization(),
                final(self).pending_records(),
                final(self).sweeps_since_record(),
            ),
            ({
                let before = *old(self);
                let after = *final(self);
                &&& before.pending_thermalization() > 0 ==> step == SweepStep::Thermalize
                &&& after.sweeps_per_record() == before.sweeps_per_record()
                &&& (before.pending_thermalization() == 0 && before.pending_records() > 0) ==> if before.sweeps_since_record()
                    == before.sweeps_per_record() {
                    step == SweepStep::Record && after.sweeps_since_record() == 0
                } else {
                    step == SweepStep::Measure && after.sweeps_since_record()
                        == before.sweeps_since_record() + 1
                }
                &&& (step == SweepStep::Done) == (before.pending_sweeps() == 0
                    && before.pending_records() == 0)
                &&& (step == SweepStep::Thermalize || step == SweepStep::Measure) ==> (
                before.pending_sweeps() > 0 && after.pending_sweeps() == before.pending_sweeps() - 1
                    && after.pending_records() == before.pending_records())
                &&& step == SweepStep::Thermalize ==> after.pending_thermalization()
                    == before.pending_thermalization() - 1
                &&& step == SweepStep::Measure ==> after.pending_thermalization() == 0
                &&& step == SweepStep::Record ==> (before.pending_records() > 0
                    && after.pending_records() == before.pending_records() - 1
                    && after.pending_sweeps() == before.pending_sweeps()
                    && after.pending_thermalization() == 0)
                &&& step == SweepStep::Done ==> (after.pending_sweeps() == 0
                    && after.pending_records() == 0 && after.pending_thermalization() == 0)
            }),
    {
        let per = self.sweeps_per_measurement;
        if self.thermalization_remaining > 0 {
            self.thermalization_remaining = self.thermalization_remaining - 1;
            proof {
                assert(self.measurements_remaining * per >= self.sweeps_into_measurement) by (nonlinear_arith)
                    requires
                        self.measurements_remaining == 0 ==> self.sweeps_into_measurement == 0,
                        self.sweeps_into_measurement <= per,
                ;
            }
            return SweepStep::Thermalize;
        }
        if self.measurements_remaining == 0 {
            return SweepStep::Done;
        }
        if self.sweeps_into_measurement == per {
            let ghost before = self.measurements_remaining as int;
            self.measurements_remaining = self.measurements_remaining - 1;
            self.sweeps_into_measurement = 0;
            proof {
                assert(before * per - per == (before - 1) * per) by (nonlinear_arith);
            }
            return SweepStep::Record;
        }
        proof {
            assert(self.measurements_remaining * per >= per) by (nonlinear_arith)
                requires
                    self.measurements_remaining > 0,
            ;
        }
        self.sweeps_into_measurement = self.sweeps_into_measurement + 1;
        SweepStep::Measure
    }
}

} // verus!
