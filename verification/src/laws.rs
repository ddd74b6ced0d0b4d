//! What holds of the scheduler in every state it can reach.

use crate::model::{JobState, Phase, SchedulerView, TickAction};
use crate::registry::{failed, lemma_collection_touches_one, lemma_index_of, lookup};
use vstd::prelude::*;

verus! {

/// Starting keeps the state well formed.
pub proof fn lemma_start_keeps_wf(v: SchedulerView)
    requires
        v.wf(),
    ensures
        v.after_start().wf(),
{
    let w = v.after_start();
    assert forall|k: int| 0 <= k < w.jobs.len() implies w.registry[k].0 == (#[trigger] w.jobs[k]).name
        by {
        assert(v.jobs[k].name == v.registry[k].0);
    }
}

/// A tick keeps the state well formed.
pub proof fn lemma_tick_keeps_wf(v: SchedulerView, job: int)
    requires
        v.wf(),
    ensures
        v.after_tick(job).wf(),
{
    lemma_grant_keeps_wf(v, job, v.after_tick(job));
}

/// A retry keeps the state well formed.
pub proof fn lemma_retry_keeps_wf(v: SchedulerView, job: int)
    requires
        v.wf(),
    ensures
        v.after_retry(job).wf(),
{
    lemma_grant_keeps_wf(v, job, v.after_retry(job));
}

proof fn lemma_grant_keeps_wf(v: SchedulerView, job: int, w: SchedulerView)
    requires
        v.wf(),
        w == v.after_tick(job) || w == v.after_retry(job),
    ensures
        w.wf(),
{
    if w != v {
        let d = v.jobs[job].database;
        assert(v.jobs[job].state != JobState::Running);
        assert forall|k: int| 0 <= k < w.jobs.len() implies {
            &&& w.registry[k].0 == (#[trigger] w.jobs[k]).name
            &&& w.registry[k].1.kind == w.jobs[k].kind
            &&& 0 <= w.jobs[k].database < w.slots.len()
            &&& w.jobs[k].period_secs >= 1
            &&& (w.jobs[k].state == JobState::Running ==> w.slots[w.jobs[k].database] == Some(k))
        } by {
            assert(v.jobs[k].name == v.registry[k].0);
            if k != job && v.jobs[k].state == JobState::Running {
                assert(v.slots[v.jobs[k].database] == Some(k));
            }
        }
        assert forall|e: int| 0 <= e < w.slots.len() implies ((#[trigger] w.slots[e]) matches Some(
            k,
        ) ==> 0 <= k < w.jobs.len() && w.jobs[k].database == e && w.jobs[k].state
            == JobState::Running) by {
            if w.slots[e] is Some && e != d {
                assert(v.slots[e] == w.slots[e]);
            }
            if w.slots[e] is Some && e == d && w.slots[e] != Some(job) {
                assert(v.slots[e] == w.slots[e]);
            }
        }
    }
}

/// The end of an execution keeps the state well formed.
pub proof fn lemma_complete_keeps_wf(v: SchedulerView, job: int, observed: Option<i64>, now: u64)
    requires
        v.wf(),
    ensures
        v.after_complete(job, observed, now).wf(),
{
    let w = v.after_complete(job, observed, now);
    if v.completes(job) {
        let d = v.jobs[job].database;
        let name = v.jobs[job].name;
        lemma_collection_touches_one(v.registry, name, 0, now);
        if observed is Some {
            lemma_collection_touches_one(v.registry, name, observed.unwrap(), now);
        }
        assert(v.slots[d] == Some(job));
        assert forall|k: int| 0 <= k < w.jobs.len() implies {
            &&& w.registry[k].0 == (#[trigger] w.jobs[k]).name
            &&& w.registry[k].1.kind == w.jobs[k].kind
            &&& 0 <= w.jobs[k].database < w.slots.len()
            &&& w.jobs[k].period_secs >= 1
            &&& (w.jobs[k].state == JobState::Running ==> w.slots[w.jobs[k].database] == Some(k))
        } by {
            assert(v.jobs[k].name == v.registry[k].0);
            if k != job && v.jobs[k].state == JobState::Running {
                assert(v.slots[v.jobs[k].database] == Some(k));
            }
        }
        assert forall|e: int| 0 <= e < w.slots.len() implies ((#[trigger] w.slots[e]) matches Some(
            k,
        ) ==> 0 <= k < w.jobs.len() && w.jobs[k].database == e && w.jobs[k].state
            == JobState::Running) by {
            if e != d {
                assert(v.slots[e] == w.slots[e]);
            }
        }
    }
}

/// A shutdown request and the end of its grace period keep the state well
/// formed.
pub proof fn lemma_shutdown_keeps_wf(v: SchedulerView, now: u64, grace_secs: u64)
    requires
        v.wf(),
    ensures
        v.after_shutdown(now, grace_secs).wf(),
        v.after_expire(now).wf(),
{
    let w = v.after_shutdown(now, grace_secs);
    assert forall|k: int| 0 <= k < w.jobs.len() implies w.registry[k].0 == (#[trigger] w.jobs[k]).name
        by {
        assert(v.jobs[k].name == v.registry[k].0);
    }
    let x = v.after_expire(now);
    assert forall|k: int| 0 <= k < x.jobs.len() implies x.registry[k].0 == (#[trigger] x.jobs[k]).name
        by {
        assert(v.jobs[k].name == v.registry[k].0);
    }
}

/// At most one job executes on a database at a time.
pub proof fn lemma_one_execution_per_database(v: SchedulerView, a: int, b: int)
    requires
        v.wf(),
        v.valid_job(a),
        v.valid_job(b),
        v.jobs[a].state == JobState::Running,
        v.jobs[b].state == JobState::Running,
        v.jobs[a].database == v.jobs[b].database,
    ensures
        a == b,
{
    assert(v.slots[v.jobs[a].database] == Some(a));
    assert(v.slots[v.jobs[b].database] == Some(b));
}

/// A tick never starts a job that is in flight: it is skipped and nothing
/// changes. So once a tick has started or queued a job, every further tick
/// of that job is skipped until its execution has ended.
pub proof fn lemma_overlapping_tick_is_skipped(v: SchedulerView, job: int)
    requires
        v.wf(),
        v.valid_job(job),
        v.phase == Phase::Running,
    ensures
        v.jobs[job].state != JobState::Idle ==> v.tick_action(job) == TickAction::Skipped
            && v.after_tick(job) == v,
        v.tick_action(job) == TickAction::Execute ==> v.jobs[job].state == JobState::Idle,
        v.after_tick(job).tick_action(job) == TickAction::Skipped,
        v.after_tick(job).after_tick(job) == v.after_tick(job),
{
}

/// The end of an execution, whatever its outcome, frees the job for its
/// next tick.
pub proof fn lemma_complete_releases(v: SchedulerView, job: int, observed: Option<i64>, now: u64)
    requires
        v.wf(),
        v.completes(job),
    ensures
        v.after_complete(job, observed, now).jobs[job].state == JobState::Idle,
        v.after_complete(job, observed, now).slots[v.jobs[job].database] is None,
        v.after_complete(job, observed, now).phase == Phase::Running ==> v.after_complete(
            job,
            observed,
            now,
        ).tick_action(job) == TickAction::Execute,
{
}

/// A failing job does not reach a job of another database: when the
/// execution of `a` ends in failure, the registry entry of `b`, the state
/// of `b` and what the next tick of `b` is told are what they were. While
/// the scheduler runs, an idle `b` whose database is free is executed.
pub proof fn lemma_failure_is_isolated(v: SchedulerView, a: int, b: int, now: u64)
    requires
        v.wf(),
        v.completes(a),
        v.valid_job(b),
        v.jobs[a].database != v.jobs[b].database,
        v.phase == Phase::Running,
    ensures
        lookup(v.after_complete(a, None, now).registry, v.jobs[b].name) == lookup(
            v.registry,
            v.jobs[b].name,
        ),
        v.after_complete(a, None, now).jobs[b] == v.jobs[b],
        v.after_complete(a, None, now).tick_action(b) == v.tick_action(b),
        v.jobs[b].state == JobState::Idle && v.slots[v.jobs[b].database] is None
            ==> v.after_complete(a, None, now).tick_action(b) == TickAction::Execute,
{
    let w = v.after_complete(a, None, now);
    let name = v.jobs[a].name;
    lemma_collection_touches_one(v.registry, name, 0, now);
    lemma_complete_keeps_wf(v, a, None, now);
    assert(v.registry[a].0 == v.jobs[a].name);
    assert(v.registry[b].0 == v.jobs[b].name);
    if a < b {
        assert(v.registry[a].0 != v.registry[b].0);
    } else {
        assert(v.registry[b].0 != v.registry[a].0);
    }
    assert(failed(v.registry, name)[b] == v.registry[b]);
    lemma_index_of(v.registry, v.jobs[b].name, b);
    lemma_index_of(w.registry, v.jobs[b].name, b);
}

/// Once a shutdown was asked for, no execution starts: neither a tick nor
/// a retry is answered with `Execute`, and no job becomes `Running`.
pub proof fn lemma_no_execution_starts_after_shutdown(v: SchedulerView, job: int, k: int)
    requires
        v.wf(),
        v.phase == Phase::ShuttingDown || v.phase == Phase::Stopped,
        v.valid_job(k),
    ensures
        v.tick_action(job) != TickAction::Execute,
        v.retry_action(job) != TickAction::Execute,
        v.after_tick(job) == v,
        v.after_retry(job).jobs[k].state == JobState::Running ==> v.jobs[k].state
            == JobState::Running,
{
}

/// `Stopped` is final: whatever is reported afterwards, the scheduler stays
/// stopped and the registry stays as it was.
pub proof fn lemma_stopped_is_final(
    v: SchedulerView,
    job: int,
    observed: Option<i64>,
    now: u64,
    grace_secs: u64,
)
    requires
        v.phase == Phase::Stopped,
    ensures
        v.after_start() == v,
        v.after_tick(job) == v,
        v.after_shutdown(now, grace_secs) == v,
        v.after_expire(now) == v,
        v.after_retry(job).phase == Phase::Stopped,
        v.after_retry(job).registry == v.registry,
        v.after_complete(job, observed, now).phase == Phase::Stopped,
        v.after_complete(job, observed, now).registry == v.registry,
{
}

/// No event removes or renames a registry entry.
pub proof fn lemma_entries_are_never_removed(
    v: SchedulerView,
    job: int,
    observed: Option<i64>,
    now: u64,
    grace_secs: u64,
    k: int,
)
    requires
        0 <= k < v.registry.len(),
    ensures
        v.after_start().registry == v.registry,
        v.after_tick(job).registry == v.registry,
        v.after_retry(job).registry == v.registry,
        v.after_shutdown(now, grace_secs).registry == v.registry,
        v.after_expire(now).registry == v.registry,
        v.after_complete(job, observed, now).registry.len() == v.registry.len(),
        v.after_complete(job, observed, now).registry[k].0 == v.registry[k].0,
        v.after_complete(job, observed, now).registry[k].1.kind == v.registry[k].1.kind,
{
    if v.completes(job) {
        lemma_collection_touches_one(v.registry, v.jobs[job].name, 0, now);
        if observed is Some {
            lemma_collection_touches_one(v.registry, v.jobs[job].name, observed.unwrap(), now);
        }
    }
}

} // verus!
