//! The scheduler as a state machine over mathematical values: what each
//! event does to the jobs, the execution slots and the registry.

use crate::config::Driver;
use crate::registry::{failed, names_distinct, updated, Entries, MetricKind};
use vstd::prelude::*;

verus! {

/// The life of the whole scheduler.
#[derive(Clone, Copy, Debug, PartialEq, Eq, Structural)]
pub enum Phase {
    Initializing,
    Running,
    ShuttingDown,
    Stopped,
}

/// Where one job stands. A job that is not `Idle` is in flight:
/// `Waiting` for its database's execution slot, or `Running` its query.
#[derive(Clone, Copy, Debug, PartialEq, Eq, Structural)]
pub enum JobState {
    Idle,
    Waiting,
    Running,
}

/// Whether a job's latest finished execution succeeded.
#[derive(Clone, Copy, Debug, PartialEq, Eq, Structural)]
pub enum Health {
    Healthy,
    Degraded,
}

/// What the caller is to do after a tick or a retry.
#[derive(Clone, Copy, Debug, PartialEq, Eq, Structural)]
pub enum TickAction {
    /// Run the job's query now; report the outcome with `complete`.
    Execute,
    /// The database is executing another job: wait, then `retry`.
    AwaitSlot,
    /// The job is still in flight: this tick is dropped, not queued.
    Skipped,
    /// The scheduler issues no executions in its present phase.
    NotRunning,
    /// No job has this index.
    UnknownJob,
}

pub struct JobView {
    pub name: Seq<char>,
    pub kind: MetricKind,
    pub query: Seq<char>,
    pub database: int,
    pub driver: Driver,
    pub period_secs: u64,
    pub state: JobState,
    pub health: Health,
}

pub struct SchedulerView {
    pub phase: Phase,
    pub jobs: Seq<JobView>,
    /// For each database, the job that is executing on it, if any.
    pub slots: Seq<Option<int>>,
    pub registry: Entries,
    /// While shutting down: when the grace period ends.
    pub deadline: u64,
}

impl SchedulerView {
    pub open spec fn valid_job(self, job: int) -> bool {
        0 <= job < self.jobs.len()
    }

    /// Job `k` owns registry entry `k`; a running job holds its database's
    /// slot, and a held slot names a running job of that database.
    pub open spec fn wf(self) -> bool {
        &&& self.registry.len() == self.jobs.len()
        &&& names_distinct(self.registry)
        &&& forall|k: int|
            0 <= k < self.jobs.len() ==> {
                &&& self.registry[k].0 == (#[trigger] self.jobs[k]).name
                &&& self.registry[k].1.kind == self.jobs[k].kind
                &&& 0 <= self.jobs[k].database < self.slots.len()
                &&& self.jobs[k].period_secs >= 1
                &&& (self.jobs[k].state == JobState::Running ==> self.slots[self.jobs[k].database]
                    == Some(k))
            }
        &&& forall|d: int|
            0 <= d < self.slots.len() ==> ((#[trigger] self.slots[d]) matches Some(k) ==> 0 <= k
                < self.jobs.len() && self.jobs[k].database == d && self.jobs[k].state
                == JobState::Running)
    }

    /// Whether any database is executing a job.
    pub open spec fn busy(self) -> bool {
        exists|d: int| 0 <= d < self.slots.len() && (#[trigger] self.slots[d]) is Some
    }

    pub open spec fn with_job(self, job: int, state: JobState, health: Health) -> SchedulerView {
        SchedulerView {
            jobs: self.jobs.update(
                job,
                JobView {
                    name: self.jobs[job].name,
                    kind: self.jobs[job].kind,
                    query: self.jobs[job].query,
                    database: self.jobs[job].database,
                    driver: self.jobs[job].driver,
                    period_secs: self.jobs[job].period_secs,
                    state,
                    health,
                },
            ),
            ..self
        }
    }

    pub open spec fn with_slot(self, database: int, holder: Option<int>) -> SchedulerView {
        SchedulerView { slots: self.slots.update(database, holder), ..self }
    }

    pub open spec fn with_phase(self, phase: Phase) -> SchedulerView {
        SchedulerView { phase, ..self }
    }

    /// `Initializing` becomes `Running`; every other phase stays.
    pub open spec fn after_start(self) -> SchedulerView {
        if self.phase == Phase::Initializing {
            self.with_phase(Phase::Running)
        } else {
            self
        }
    }

    /// What a timer tick of `job` asks of the caller.
    pub open spec fn tick_action(self, job: int) -> TickAction {
        if !self.valid_job(job) {
            TickAction::UnknownJob
        } else if self.phase != Phase::Running {
            TickAction::NotRunning
        } else if self.jobs[job].state != JobState::Idle {
            TickAction::Skipped
        } else if self.slots[self.jobs[job].database] is None {
            TickAction::Execute
        } else {
            TickAction::AwaitSlot
        }
    }

    /// The state after a timer tick of `job`.
    pub open spec fn after_tick(self, job: int) -> SchedulerView {
        match self.tick_action(job) {
            TickAction::Execute => self.with_job(
                job,
                JobState::Running,
                self.jobs[job].health,
            ).with_slot(self.jobs[job].database, Some(job)),
            TickAction::AwaitSlot => self.with_job(job, JobState::Waiting, self.jobs[job].health),
            _ => self,
        }
    }

    /// What a waiting job is told when it asks for its slot again.
    pub open spec fn retry_action(self, job: int) -> TickAction {
        if !self.valid_job(job) {
            TickAction::UnknownJob
        } else if self.jobs[job].state != JobState::Waiting {
            TickAction::Skipped
        } else if self.phase != Phase::Running {
            TickAction::NotRunning
        } else if self.slots[self.jobs[job].database] is None {
            TickAction::Execute
        } else {
            TickAction::AwaitSlot
        }
    }

    /// The state after a waiting job asked for its slot again. Outside
    /// `Running` the wait is cancelled and the job is idle again.
    pub open spec fn after_retry(self, job: int) -> SchedulerView {
        match self.retry_action(job) {
            TickAction::Execute => self.with_job(
                job,
                JobState::Running,
                self.jobs[job].health,
            ).with_slot(self.jobs[job].database, Some(job)),
            TickAction::NotRunning => self.with_job(job, JobState::Idle, self.jobs[job].health),
            _ => self,
        }
    }

    /// Whether `complete` for `job` ends an execution: the job is running.
    pub open spec fn completes(self, job: int) -> bool {
        self.valid_job(job) && self.jobs[job].state == JobState::Running
    }

    /// Whether the outcome of `job` is written to the registry: the
    /// execution ends before the scheduler has stopped.
    pub open spec fn records(self, job: int) -> bool {
        self.completes(job) && self.phase != Phase::Stopped
    }

    /// The state after the execution of `job` ended with `observed`: a
    /// value, or `None` for a failure. The job is idle again and its
    /// database free, whatever the outcome. Before `Stopped`, a value is
    /// written and a failure recorded; once stopped the outcome is dropped.
    /// The last execution to end while shutting down stops the scheduler.
    pub open spec fn after_complete(self, job: int, observed: Option<i64>, now: u64)
        -> SchedulerView {
        if !self.completes(job) {
            self
        } else {
            let health = if self.phase == Phase::Stopped {
                self.jobs[job].health
            } else if observed is Some {
                Health::Healthy
            } else {
                Health::Degraded
            };
            let registry = if self.phase == Phase::Stopped {
                self.registry
            } else {
                match observed {
                    Some(v) => updated(self.registry, self.jobs[job].name, v, now),
                    None => failed(self.registry, self.jobs[job].name),
                }
            };
            let released = self.with_job(job, JobState::Idle, health).with_slot(
                self.jobs[job].database,
                None,
            );
            let phase = if self.phase == Phase::ShuttingDown && !released.busy() {
                Phase::Stopped
            } else {
                self.phase
            };
            SchedulerView { phase, registry, ..released }
        }
    }

    pub open spec fn deadline_after(now: u64, grace_secs: u64) -> u64 {
        if now + grace_secs > u64::MAX {
            u64::MAX
        } else {
            (now + grace_secs) as u64
        }
    }

    /// The state after a shutdown request at `now`. No tick starts an
    /// execution from here on. With executions in flight the scheduler
    /// waits for them until the grace period ends; with none it stops.
    pub open spec fn after_shutdown(self, now: u64, grace_secs: u64) -> SchedulerView {
        match self.phase {
            Phase::Initializing => self.with_phase(Phase::Stopped),
            Phase::Running => if self.busy() {
                SchedulerView {
                    phase: Phase::ShuttingDown,
                    deadline: Self::deadline_after(now, grace_secs),
                    ..self
                }
            } else {
                self.with_phase(Phase::Stopped)
            },
            _ => self,
        }
    }

    /// The state at time `now`: a shutdown whose grace period has ended
    /// stops, and abandons what is still executing.
    pub open spec fn after_expire(self, now: u64) -> SchedulerView {
        if self.phase == Phase::ShuttingDown && now >= self.deadline {
            self.with_phase(Phase::Stopped)
        } else {
            self
        }
    }
}

} // verus!
