//! The scheduler: one job per configured metric, driven event by event.
//!
//! The caller owns the timers and the database connections. It reports
//! each timer tick and each finished execution; the scheduler answers with
//! what to do next and keeps the registry.

use crate::config::{
    as_plan, driver_of, drivers_known, frequencies_valid, metric_count, names_unique, parse_driver,
    lemma_planned, plan, plan_in_bounds, planned, spec_at, Configuration, Driver,
};
use crate::exporter::{export_registry, exposition};
use crate::error::ConfigError;
use crate::frequency::{frequency_seconds, parse_frequency};
use crate::laws::{
    lemma_complete_keeps_wf, lemma_retry_keeps_wf, lemma_shutdown_keeps_wf, lemma_start_keeps_wf,
    lemma_tick_keeps_wf,
};
use crate::model::{Health, JobState, JobView, Phase, SchedulerView, TickAction};
use crate::registry::{
    fresh_value, lookup, names_distinct, MetricKind, MetricValue, Registry, Snapshot,
};
use vstd::prelude::*;

verus! {

/// Why an execution failed.
#[derive(Clone, Copy, Debug, PartialEq, Eq, Structural)]
pub enum ExecutionError {
    /// The connection was lost or the database unreachable.
    ConnectionError,
    /// The backend rejected the query.
    QueryError,
}

/// What a query returned.
#[derive(Debug)]
pub enum QueryResult {
    Scalar(i64),
    Row(Vec<i64>),
}

/// Whether a collected number may stand as a value of `kind`: a counter is
/// never negative.
pub open spec fn accepted(kind: MetricKind, v: i64) -> Option<i64> {
    if kind == MetricKind::Counter && v < 0 {
        None
    } else {
        Some(v)
    }
}

/// The value that an execution's outcome yields for a metric of `kind`: a
/// scalar, or the first cell of a row. `None` where the execution failed,
/// the row is empty, or the number is not accepted for the kind.
pub open spec fn observed(kind: MetricKind, outcome: Result<QueryResult, ExecutionError>) -> Option<
    i64,
> {
    match outcome {
        Ok(QueryResult::Scalar(v)) => accepted(kind, v),
        Ok(QueryResult::Row(cells)) => if cells@.len() > 0 {
            accepted(kind, cells@[0])
        } else {
            None
        },
        Err(_) => None,
    }
}

/// Converts an execution's outcome to a value of the declared kind.
pub fn convert(kind: MetricKind, outcome: &Result<QueryResult, ExecutionError>) -> (r: Option<i64>)
    ensures
        r == observed(kind, *outcome),
{
    let v: i64 = match outcome {
        Ok(QueryResult::Scalar(v)) => *v,
        Ok(QueryResult::Row(cells)) => {
            if cells.len() == 0 {
                return None;
            }
            cells[0]
        },
        Err(_) => {
            return None;
        },
    };
    match kind {
        MetricKind::Counter => if v < 0 {
            None
        } else {
            Some(v)
        },
        _ => Some(v),
    }
}

/// The fixed part of a job: which metric it collects, from which database,
/// and how often.
pub struct Job {
    pub name: String,
    pub kind: MetricKind,
    pub query: String,
    /// The index of the job's database in the configuration.
    pub database: usize,
    pub driver: Driver,
    pub period_secs: u64,
}

/// The job that a configuration's metric becomes.
pub open spec fn job_view_at(cfg: &Configuration, p: (int, int)) -> JobView {
    JobView {
        name: spec_at(cfg, p).name@,
        kind: spec_at(cfg, p).kind,
        query: spec_at(cfg, p).query@,
        database: p.0,
        driver: driver_of(cfg.databases@[p.0].driver@).unwrap(),
        period_secs: frequency_seconds(spec_at(cfg, p).frequency@).unwrap() as u64,
        state: JobState::Idle,
        health: Health::Healthy,
    }
}

/// The state that a valid configuration starts in: one idle job for each
/// metric, in plan order; every database free; every metric registered and
/// none collected.
pub open spec fn initial_view(cfg: &Configuration) -> SchedulerView {
    SchedulerView {
        phase: Phase::Initializing,
        jobs: Seq::new(
            planned(cfg.databases@).len(),
            |k: int| job_view_at(cfg, planned(cfg.databases@)[k]),
        ),
        slots: Seq::new(cfg.databases@.len(), |d: int| None::<int>),
        registry: Seq::new(
            planned(cfg.databases@).len(),
            |k: int|
                (
                    spec_at(cfg, planned(cfg.databases@)[k]).name@,
                    fresh_value(spec_at(cfg, planned(cfg.databases@)[k]).kind),
                ),
        ),
        deadline: 0,
    }
}

/// Why a configuration is refused, if it is: an unknown driver before an
/// invalid frequency, and that before a duplicate name.
pub open spec fn config_error(cfg: &Configuration) -> Option<ConfigError> {
    if !drivers_known(cfg) {
        Some(ConfigError::UnknownDriver)
    } else if !frequencies_valid(cfg) {
        Some(ConfigError::InvalidFrequency)
    } else if !names_unique(cfg) {
        Some(ConfigError::DuplicateMetricName)
    } else {
        None
    }
}

/// A valid configuration starts with one job for each of its metric
/// specifications, each job owning the registry entry of its own index,
/// and no name held twice.
pub proof fn lemma_one_job_per_metric(cfg: &Configuration)
    requires
        config_error(cfg) is None,
    ensures
        initial_view(cfg).jobs.len() == metric_count(cfg.databases@),
        initial_view(cfg).registry.len() == metric_count(cfg.databases@),
        forall|k: int|
            0 <= k < initial_view(cfg).jobs.len() ==> (#[trigger] initial_view(cfg).jobs[k]).name
                == initial_view(cfg).registry[k].0,
        names_distinct(initial_view(cfg).registry),
        initial_view(cfg).wf(),
{
    lemma_planned(cfg.databases@);
    let v = initial_view(cfg);
    let pl = planned(cfg.databases@);
    assert forall|a: int, b: int| 0 <= a < b < v.registry.len() implies (#[trigger] v.registry[a]).0
        != (#[trigger] v.registry[b]).0 by {
        assert(spec_at(cfg, pl[a]).name@ != spec_at(cfg, pl[b]).name@);
    }
    assert forall|k: int| 0 <= k < v.jobs.len() implies {
        &&& v.registry[k].0 == (#[trigger] v.jobs[k]).name
        &&& v.registry[k].1.kind == v.jobs[k].kind
        &&& 0 <= v.jobs[k].database < v.slots.len()
        &&& v.jobs[k].period_secs >= 1
        &&& (v.jobs[k].state == JobState::Running ==> v.slots[v.jobs[k].database] == Some(k))
    } by {
        assert(0 <= pl[k].0 < cfg.databases@.len());
        assert(frequency_seconds(spec_at(cfg, pl[k]).frequency@) is Some);
    }
}

pub struct Scheduler {
    phase: Phase,
    jobs: Vec<Job>,
    states: Vec<JobState>,
    health: Vec<Health>,
    slots: Vec<Option<usize>>,
    registry: Registry,
    deadline: u64,
}

impl View for Scheduler {
    type V = SchedulerView;

    closed spec fn view(&self) -> SchedulerView {
        SchedulerView {
            phase: self.phase,
            jobs: Seq::new(
                self.jobs@.len(),
                |k: int|
                    JobView {
                        name: self.jobs@[k].name@,
                        kind: self.jobs@[k].kind,
                        query: self.jobs@[k].query@,
                        database: self.jobs@[k].database as int,
                        driver: self.jobs@[k].driver,
                        period_secs: self.jobs@[k].period_secs,
                        state: self.states@[k],
                        health: self.health@[k],
                    },
            ),
            slots: Seq::new(
                self.slots@.len(),
                |d: int|
                    match self.slots@[d] {
                        Some(j) => Some(j as int),
                        None => None,
                    },
            ),
            registry: self.registry@,
            deadline: self.deadline,
        }
    }
}

impl Scheduler {
    pub closed spec fn wf(&self) -> bool {
        &&& self.states@.len() == self.jobs@.len()
        &&& self.health@.len() == self.jobs@.len()
        &&& self.registry.wf()
        &&& self@.wf()
    }

    /// Builds the scheduler for a configuration, or refuses the whole
    /// configuration: no part of an invalid one is ever run.
    pub fn new(cfg: &Configuration) -> (r: Result<Scheduler, ConfigError>)
        ensures
            match config_error(cfg) {
                Some(e) => r matches Err(x) && x == e,
                None => r matches Ok(s) && s.wf() && s@.wf() && s@ == initial_view(cfg)
                    && s@.jobs.len() == metric_count(cfg.databases@),
            },
    {
        let mut slots: Vec<Option<usize>> = Vec::new();
        let mut drivers: Vec<Driver> = Vec::new();
        let mut d: usize = 0;
        while d < cfg.databases.len()
            invariant
                d <= cfg.databases@.len(),
                slots@.len() == d,
                drivers@.len() == d,
                forall|e: int| 0 <= e < d ==> (#[trigger] slots@[e]) is None,
                forall|e: int|
                    0 <= e < d ==> driver_of((#[trigger] cfg.databases@[e]).driver@) == Some(
                        drivers@[e],
                    ),
            decreases cfg.databases@.len() - d,
        {
            match parse_driver(cfg.databases[d].driver.as_str()) {
                Some(driver) => {
                    drivers.push(driver);
                    slots.push(None);
                },
                None => {
                    assert(driver_of(cfg.databases@[d as int].driver@) is None);
                    return Err(ConfigError::UnknownDriver);
                },
            }
            d += 1;
        }
        assert(drivers_known(cfg));
        let pairs = plan(cfg);
        let ghost pl = planned(cfg.databases@);
        let mut periods: Vec<u64> = Vec::new();
        let mut k: usize = 0;
        while k < pairs.len()
            invariant
                k <= pairs@.len(),
                as_plan(pairs@) == pl,
                pl == planned(cfg.databases@),
                plan_in_bounds(cfg.databases@, pl),
                periods@.len() == k,
                drivers_known(cfg),
                forall|i: int|
                    0 <= i < k ==> frequency_seconds(spec_at(cfg, #[trigger] pl[i]).frequency@)
                        == Some(periods@[i] as nat),
            decreases pairs@.len() - k,
        {
            assert(pl[k as int] == (pairs@[k as int].0 as int, pairs@[k as int].1 as int));
            let spec = &cfg.databases[pairs[k].0].metrics[pairs[k].1];
            match parse_frequency(spec.frequency.as_str()) {
                Ok(secs) => {
                    periods.push(secs);
                },
                Err(_) => {
                    assert(frequency_seconds(spec_at(cfg, pl[k as int]).frequency@) is None);
                    return Err(ConfigError::InvalidFrequency);
                },
            }
            k += 1;
        }
        assert(frequencies_valid(cfg));
        let mut registry = Registry::new();
        let mut jobs: Vec<Job> = Vec::new();
        let mut states: Vec<JobState> = Vec::new();
        let mut health: Vec<Health> = Vec::new();
        let mut k: usize = 0;
        while k < pairs.len()
            invariant
                k <= pairs@.len(),
                as_plan(pairs@) == pl,
                pl == planned(cfg.databases@),
                plan_in_bounds(cfg.databases@, pl),
                periods@.len() == pairs@.len(),
                drivers_known(cfg),
                frequencies_valid(cfg),
                drivers@.len() == cfg.databases@.len(),
                forall|e: int|
                    0 <= e < cfg.databases@.len() ==> driver_of(
                        (#[trigger] cfg.databases@[e]).driver@,
                    ) == Some(drivers@[e]),
                forall|i: int|
                    0 <= i < pl.len() ==> frequency_seconds(spec_at(cfg, #[trigger] pl[i]).frequency@)
                        == Some(periods@[i] as nat),
                registry.wf(),
                registry@.len() == k,
                jobs@.len() == k,
                states@.len() == k,
                health@.len() == k,
                forall|i: int|
                    0 <= i < k ==> (#[trigger] registry@[i]) == (
                        spec_at(cfg, pl[i]).name@,
                        fresh_value(spec_at(cfg, pl[i]).kind),
                    ),
                forall|i: int|
                    0 <= i < k ==> {
                        &&& (#[trigger] jobs@[i]).name@ == spec_at(cfg, pl[i]).name@
                        &&& jobs@[i].kind == spec_at(cfg, pl[i]).kind
                        &&& jobs@[i].query@ == spec_at(cfg, pl[i]).query@
                        &&& jobs@[i].database as int == pl[i].0
                        &&& jobs@[i].driver == drivers@[pl[i].0]
                        &&& jobs@[i].period_secs == periods@[i]
                        &&& states@[i] == JobState::Idle
                        &&& health@[i] == Health::Healthy
                    },
                forall|a: int, b: int|
                    0 <= a < b < k ==> spec_at(cfg, #[trigger] pl[a]).name@ != spec_at(
                        cfg,
                        #[trigger] pl[b],
                    ).name@,
            decreases pairs@.len() - k,
        {
            assert(pl[k as int] == (pairs@[k as int].0 as int, pairs@[k as int].1 as int));
            let db = pairs[k].0;
            let spec = &cfg.databases[db].metrics[pairs[k].1];
            let ghost before = registry@;
            if registry.get(spec.name.as_str()).is_some() {
                proof {
                    let i = choose|i: int|
                        0 <= i < before.len() && (#[trigger] before[i]).0 == spec.name@;
                    assert(spec_at(cfg, pl[i]).name@ == spec_at(cfg, pl[k as int]).name@);
                }
                return Err(ConfigError::DuplicateMetricName);
            }
            let _ = registry.register(spec.name.as_str(), spec.kind);
            jobs.push(
                Job {
                    name: spec.name.clone(),
                    kind: spec.kind,
                    query: spec.query.clone(),
                    database: db,
                    driver: drivers[db],
                    period_secs: periods[k],
                },
            );
            states.push(JobState::Idle);
            health.push(Health::Healthy);
            proof {
                assert forall|a: int, b: int| 0 <= a < b < k + 1 implies spec_at(
                    cfg,
                    #[trigger] pl[a],
                ).name@ != spec_at(cfg, #[trigger] pl[b]).name@ by {
                    if b == k {
                        assert(before[a].0 == spec_at(cfg, pl[a]).name@);
                    }
                }
            }
            k += 1;
        }
        assert(names_unique(cfg));
        let s = Scheduler {
            phase: Phase::Initializing,
            jobs,
            states,
            health,
            slots,
            registry,
            deadline: 0,
        };
        proof {
            assert(s@.jobs =~= initial_view(cfg).jobs) by {
                assert forall|i: int| 0 <= i < pl.len() implies s@.jobs[i] == job_view_at(
                    cfg,
                    pl[i],
                ) by {
                    assert(driver_of(cfg.databases@[pl[i].0].driver@) == Some(drivers@[pl[i].0]));
                }
            }
            assert(s@.slots =~= initial_view(cfg).slots);
            assert(s@.registry =~= initial_view(cfg).registry);
            assert(s@ == initial_view(cfg));
            assert(s@.wf());
        }
        Ok(s)
    }

    /// Leaves `Initializing` for `Running`.
    pub fn start(&mut self)
        requires
            old(self).wf(),
        ensures
            final(self).wf(),
            final(self)@ == old(self)@.after_start(),
    {
        proof {
            lemma_start_keeps_wf(self@);
        }
        match self.phase {
            Phase::Initializing => {
                self.phase = Phase::Running;
            },
            _ => {},
        }
    }

    /// Reports a timer tick of `job` and says what to do about it.
    pub fn tick(&mut self, job: usize) -> (action: TickAction)
        requires
            old(self).wf(),
        ensures
            final(self).wf(),
            action == old(self)@.tick_action(job as int),
            final(self)@ == old(self)@.after_tick(job as int),
    {
        proof {
            lemma_tick_keeps_wf(self@, job as int);
        }
        if job >= self.jobs.len() {
            return TickAction::UnknownJob;
        }
        match self.phase {
            Phase::Running => {},
            _ => {
                return TickAction::NotRunning;
            },
        }
        match self.states[job] {
            JobState::Idle => {},
            _ => {
                return TickAction::Skipped;
            },
        }
        self.grant(job)
    }

    /// Reports that a waiting `job` asks for its database again.
    pub fn retry(&mut self, job: usize) -> (action: TickAction)
        requires
            old(self).wf(),
        ensures
            final(self).wf(),
            action == old(self)@.retry_action(job as int),
            final(self)@ == old(self)@.after_retry(job as int),
    {
        proof {
            lemma_retry_keeps_wf(self@, job as int);
        }
        if job >= self.jobs.len() {
            return TickAction::UnknownJob;
        }
        match self.states[job] {
            JobState::Waiting => {},
            _ => {
                return TickAction::Skipped;
            },
        }
        match self.phase {
            Phase::Running => {},
            _ => {
                self.states.set(job, JobState::Idle);
                assert(self@.jobs =~= old(self)@.after_retry(job as int).jobs);
                assert(self@.slots =~= old(self)@.after_retry(job as int).slots);
                return TickAction::NotRunning;
            },
        }
        let action = self.grant(job);
        assert(self@.jobs =~= old(self)@.after_retry(job as int).jobs);
        action
    }

    /// Gives `job` its database if it is free, and queues it if not.
    fn grant(&mut self, job: usize) -> (action: TickAction)
        requires
            old(self).states@.len() == old(self).jobs@.len(),
            old(self).health@.len() == old(self).jobs@.len(),
            old(self).registry.wf(),
            old(self)@.wf(),
            job < old(self).jobs@.len(),
        ensures
            final(self).states@.len() == final(self).jobs@.len(),
            final(self).health@.len() == final(self).jobs@.len(),
            final(self).registry.wf(),
            action == (if old(self)@.slots[old(self)@.jobs[job as int].database] is None {
                TickAction::Execute
            } else {
                TickAction::AwaitSlot
            }),
            final(self)@ == (match action {
                TickAction::Execute => old(self)@.with_job(
                    job as int,
                    JobState::Running,
                    old(self)@.jobs[job as int].health,
                ).with_slot(old(self)@.jobs[job as int].database, Some(job as int)),
                _ => old(self)@.with_job(
                    job as int,
                    JobState::Waiting,
                    old(self)@.jobs[job as int].health,
                ),
            }),
    {
        let d = self.jobs[job].database;
        assert(self@.jobs[job as int].database == d);
        let free = self.slots[d].is_none();
        assert(free == (self@.slots[d as int] is None));
        if free {
            self.states.set(job, JobState::Running);
            self.slots.set(d, Some(job));
            assert(self@.jobs =~= old(self)@.with_job(
                job as int,
                JobState::Running,
                old(self)@.jobs[job as int].health,
            ).jobs);
            assert(self@.slots =~= old(self)@.slots.update(d as int, Some(job as int)));
            TickAction::Execute
        } else {
            self.states.set(job, JobState::Waiting);
            assert(self@.jobs =~= old(self)@.with_job(
                job as int,
                JobState::Waiting,
                old(self)@.jobs[job as int].health,
            ).jobs);
            assert(self@.slots =~= old(self)@.slots);
            TickAction::AwaitSlot
        }
    }

    fn any_busy(&self) -> (r: bool)
        ensures
            r == self@.busy(),
    {
        let mut d: usize = 0;
        while d < self.slots.len()
            invariant
                d <= self.slots@.len(),
                forall|e: int| 0 <= e < d ==> (#[trigger] self@.slots[e]) is None,
            decreases self.slots@.len() - d,
        {
            if self.slots[d].is_some() {
                assert(self@.slots[d as int] is Some);
                return true;
            }
            assert(self@.slots[d as int] is None);
            d += 1;
        }
        false
    }

    /// Reports that the execution of `job` ended with `outcome` at `now`.
    /// Returns whether the outcome reached the registry.
    pub fn complete(
        &mut self,
        job: usize,
        outcome: &Result<QueryResult, ExecutionError>,
        now: u64,
    ) -> (recorded: bool)
        requires
            old(self).wf(),
        ensures
            final(self).wf(),
            recorded == old(self)@.records(job as int),
            old(self)@.completes(job as int) ==> final(self)@ == old(self)@.after_complete(
                job as int,
                observed(old(self)@.jobs[job as int].kind, *outcome),
                now,
            ),
            !old(self)@.completes(job as int) ==> final(self)@ == old(self)@,
    {
        if job >= self.jobs.len() {
            return false;
        }
        match self.states[job] {
            JobState::Running => {},
            _ => {
                return false;
            },
        }
        let kind = self.jobs[job].kind;
        let value = convert(kind, outcome);
        proof {
            lemma_complete_keeps_wf(self@, job as int, value, now);
        }
        let ghost goal = self@.after_complete(job as int, value, now);
        let d = self.jobs[job].database;
        let stopped = match self.phase {
            Phase::Stopped => true,
            _ => false,
        };
        if !stopped {
            match value {
                Some(v) => {
                    let _ = self.registry.update(self.jobs[job].name.as_str(), v, now);
                    self.health.set(job, Health::Healthy);
                },
                None => {
                    let _ = self.registry.record_failure(self.jobs[job].name.as_str());
                    self.health.set(job, Health::Degraded);
                },
            }
        }
        self.states.set(job, JobState::Idle);
        self.slots.set(d, None);
        proof {
            assert(self@.jobs =~= goal.jobs);
            assert(self@.slots =~= goal.slots);
            assert(self@.registry == goal.registry);
        }
        let shutting_down = match self.phase {
            Phase::ShuttingDown => true,
            _ => false,
        };
        if shutting_down {
            let busy = self.any_busy();
            proof {
                let released = old(self)@.with_job(job as int, JobState::Idle, goal.jobs[job as int].health).with_slot(
                    d as int,
                    None,
                );
                assert(self@.slots =~= released.slots);
                assert(busy == released.busy()) by {
                    if released.busy() {
                        let e = choose|e: int|
                            0 <= e < released.slots.len() && (#[trigger] released.slots[e]) is Some;
                        assert(self@.slots[e] is Some);
                    }
                    if self@.busy() {
                        let e = choose|e: int|
                            0 <= e < self@.slots.len() && (#[trigger] self@.slots[e]) is Some;
                        assert(released.slots[e] is Some);
                    }
                }
            }
            if !busy {
                self.phase = Phase::Stopped;
            }
        }
        assert(self@ == goal);
        !stopped
    }

    /// Asks the scheduler to stop at `now`, giving executions in flight
    /// `grace_secs` to end. Returns the phase that it is in afterwards.
    pub fn shutdown(&mut self, now: u64, grace_secs: u64) -> (phase: Phase)
        requires
            old(self).wf(),
        ensures
            final(self).wf(),
            final(self)@ == old(self)@.after_shutdown(now, grace_secs),
            phase == final(self)@.phase,
    {
        proof {
            lemma_shutdown_keeps_wf(self@, now, grace_secs);
        }
        match self.phase {
            Phase::Initializing => {
                self.phase = Phase::Stopped;
            },
            Phase::Running => {
                if self.any_busy() {
                    self.phase = Phase::ShuttingDown;
                    self.deadline = if grace_secs > u64::MAX - now {
                        u64::MAX
                    } else {
                        now + grace_secs
                    };
                } else {
                    self.phase = Phase::Stopped;
                }
            },
            _ => {},
        }
        self.phase
    }

    /// Tells the scheduler the time. Once the grace period of a shutdown
    /// has ended, it stops. Returns the phase that it is in afterwards.
    pub fn expire(&mut self, now: u64) -> (phase: Phase)
        requires
            old(self).wf(),
        ensures
            final(self).wf(),
            final(self)@ == old(self)@.after_expire(now),
            phase == final(self)@.phase,
    {
        proof {
            lemma_shutdown_keeps_wf(self@, now, 0);
        }
        let due = match self.phase {
            Phase::ShuttingDown => now >= self.deadline,
            _ => false,
        };
        if due {
            self.phase = Phase::Stopped;
        }
        self.phase
    }

    /// A scheduler that is well formed has a well-formed state: job `k`
    /// owns registry entry `k`, no name occurs twice, and no database
    /// executes two jobs.
    pub proof fn lemma_view_wf(&self)
        requires
            self.wf(),
        ensures
            self@.wf(),
    {
    }

    pub fn phase(&self) -> (p: Phase)
        ensures
            p == self@.phase,
    {
        self.phase
    }

    pub fn job_count(&self) -> (n: usize)
        ensures
            n == self@.jobs.len(),
    {
        self.jobs.len()
    }

    /// The fixed part of job `i`, if there is such a job.
    pub fn job(&self, i: usize) -> (r: Option<&Job>)
        requires
            self.wf(),
        ensures
            r is Some == self@.valid_job(i as int),
            r matches Some(j) ==> {
                &&& j.name@ == self@.jobs[i as int].name
                &&& j.kind == self@.jobs[i as int].kind
                &&& j.query@ == self@.jobs[i as int].query
                &&& j.database as int == self@.jobs[i as int].database
                &&& j.driver == self@.jobs[i as int].driver
                &&& j.period_secs == self@.jobs[i as int].period_secs
            },
    {
        if i < self.jobs.len() {
            Some(&self.jobs[i])
        } else {
            None
        }
    }

    /// Where job `i` stands, if there is such a job.
    pub fn job_state(&self, i: usize) -> (r: Option<JobState>)
        requires
            self.wf(),
        ensures
            r == (if self@.valid_job(i as int) {
                Some(self@.jobs[i as int].state)
            } else {
                None
            }),
    {
        if i < self.states.len() {
            Some(self.states[i])
        } else {
            None
        }
    }

    /// Whether the latest finished execution of job `i` succeeded.
    pub fn job_health(&self, i: usize) -> (r: Option<Health>)
        requires
            self.wf(),
        ensures
            r == (if self@.valid_job(i as int) {
                Some(self@.jobs[i as int].health)
            } else {
                None
            }),
    {
        if i < self.health.len() {
            Some(self.health[i])
        } else {
            None
        }
    }

    /// The job that is executing on database `d`, if any.
    pub fn executing(&self, d: usize) -> (r: Option<usize>)
        requires
            self.wf(),
        ensures
            match r {
                Some(j) => 0 <= d < self@.slots.len() && self@.slots[d as int] == Some(j as int),
                None => !(0 <= d < self@.slots.len()) || self@.slots[d as int] is None,
            },
    {
        if d < self.slots.len() {
            self.slots[d]
        } else {
            None
        }
    }

    /// What the registry holds for `name`.
    pub fn value(&self, name: &str) -> (r: Option<MetricValue>)
        requires
            self.wf(),
        ensures
            r == lookup(self@.registry, name@),
    {
        self.registry.get(name)
    }

    /// A copy of the registry as it stands.
    pub fn snapshot(&self) -> (s: Snapshot)
        requires
            self.wf(),
        ensures
            s@ == self@.registry,
    {
        self.registry.snapshot()
    }

    /// The exposition text of the registry as it stands.
    pub fn export(&self) -> (body: Vec<u8>)
        requires
            self.wf(),
        ensures
            body@ == exposition(self@.registry),
    {
        export_registry(&self.registry)
    }
}

} // verus!
