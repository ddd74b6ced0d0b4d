//! The configuration model and the job plan derived from it.

use crate::frequency::frequency_seconds;
use crate::registry::MetricKind;
use vstd::prelude::*;

verus! {

/// The database backends that the engine can query.
#[derive(Clone, Copy, Debug, PartialEq, Eq, Structural)]
pub enum Driver {
    Postgres,
    Mysql,
    Sqlite,
}

/// One metric to compute: its public name, its kind, how often to collect
/// it, and the query that yields it.
pub struct MetricSpec {
    pub name: String,
    pub kind: MetricKind,
    pub frequency: String,
    pub query: String,
}

/// One database and the metrics computed from it.
pub struct Database {
    pub driver: String,
    pub hostname: String,
    pub port: u16,
    pub username: String,
    pub password: String,
    pub database: String,
    pub metrics: Vec<MetricSpec>,
}

pub struct Configuration {
    pub title: String,
    pub databases: Vec<Database>,
}

pub open spec fn driver_of(s: Seq<char>) -> Option<Driver> {
    if s == "postgres"@ {
        Some(Driver::Postgres)
    } else if s == "mysql"@ {
        Some(Driver::Mysql)
    } else if s == "sqlite"@ {
        Some(Driver::Sqlite)
    } else {
        None
    }
}

pub open spec fn kind_of(s: Seq<char>) -> Option<MetricKind> {
    if s == "counter"@ {
        Some(MetricKind::Counter)
    } else if s == "gauge"@ {
        Some(MetricKind::Gauge)
    } else if s == "histogram"@ {
        Some(MetricKind::Histogram)
    } else {
        None
    }
}

fn same_text(a: &str, b: &str) -> (r: bool)
    ensures
        r == (a@ == b@),
{
    let x = String::from_str(a);
    let y = String::from_str(b);
    x == y
}

/// Reads a driver name.
pub fn parse_driver(s: &str) -> (r: Option<Driver>)
    ensures
        r == driver_of(s@),
{
    if same_text(s, "postgres") {
        Some(Driver::Postgres)
    } else if same_text(s, "mysql") {
        Some(Driver::Mysql)
    } else if same_text(s, "sqlite") {
        Some(Driver::Sqlite)
    } else {
        None
    }
}

/// Reads a metric kind.
pub fn parse_kind(s: &str) -> (r: Option<MetricKind>)
    ensures
        r == kind_of(s@),
{
    if same_text(s, "counter") {
        Some(MetricKind::Counter)
    } else if same_text(s, "gauge") {
        Some(MetricKind::Gauge)
    } else if same_text(s, "histogram") {
        Some(MetricKind::Histogram)
    } else {
        None
    }
}

/// The number of metric specifications over all databases.
pub open spec fn metric_count(dbs: Seq<Database>) -> nat
    decreases dbs.len(),
{
    if dbs.len() == 0 {
        0
    } else {
        metric_count(dbs.drop_last()) + dbs.last().metrics@.len()
    }
}

/// The (database, metric) pairs of a configuration, database by database,
/// each database's metrics in their order.
pub open spec fn planned(dbs: Seq<Database>) -> Seq<(int, int)>
    decreases dbs.len(),
{
    if dbs.len() == 0 {
        Seq::<(int, int)>::empty()
    } else {
        planned(dbs.drop_last()) + Seq::new(
            dbs.last().metrics@.len(),
            |j: int| (dbs.len() - 1, j),
        )
    }
}

/// Whether every planned pair names a metric that exists.
pub open spec fn plan_in_bounds(dbs: Seq<Database>, plan: Seq<(int, int)>) -> bool {
    forall|k: int|
        0 <= k < plan.len() ==> 0 <= (#[trigger] plan[k]).0 < dbs.len() && 0 <= plan[k].1
            < dbs[plan[k].0].metrics@.len()
}

/// The plan has one pair for each metric specification, and each pair
/// names a metric that exists.
pub proof fn lemma_planned(dbs: Seq<Database>)
    ensures
        planned(dbs).len() == metric_count(dbs),
        plan_in_bounds(dbs, planned(dbs)),
    decreases dbs.len(),
{
    if dbs.len() > 0 {
        lemma_planned(dbs.drop_last());
        let head = planned(dbs.drop_last());
        assert forall|k: int| 0 <= k < planned(dbs).len() implies 0 <= (#[trigger] planned(
            dbs,
        )[k]).0 < dbs.len() && 0 <= planned(dbs)[k].1 < dbs[planned(dbs)[k].0].metrics@.len() by {
            if k < head.len() {
                assert(planned(dbs)[k] == head[k]);
                assert(dbs.drop_last()[head[k].0] == dbs[head[k].0]);
            }
        }
    }
}

pub open spec fn spec_at(cfg: &Configuration, p: (int, int)) -> MetricSpec {
    cfg.databases@[p.0].metrics@[p.1]
}

pub open spec fn drivers_known(cfg: &Configuration) -> bool {
    forall|d: int|
        0 <= d < cfg.databases@.len() ==> driver_of((#[trigger] cfg.databases@[d]).driver@) is Some
}

pub open spec fn frequencies_valid(cfg: &Configuration) -> bool {
    forall|k: int|
        0 <= k < planned(cfg.databases@).len() ==> frequency_seconds(
            spec_at(cfg, #[trigger] planned(cfg.databases@)[k]).frequency@,
        ) is Some
}

pub open spec fn names_unique(cfg: &Configuration) -> bool {
    forall|a: int, b: int|
        0 <= a < b < planned(cfg.databases@).len() ==> spec_at(
            cfg,
            #[trigger] planned(cfg.databases@)[a],
        ).name@ != spec_at(cfg, #[trigger] planned(cfg.databases@)[b]).name@
}

/// A configuration that may be run: every driver is known, every frequency
/// parses, and no metric name occurs twice.
pub open spec fn valid_config(cfg: &Configuration) -> bool {
    drivers_known(cfg) && frequencies_valid(cfg) && names_unique(cfg)
}

pub open spec fn as_plan(v: Seq<(usize, usize)>) -> Seq<(int, int)> {
    Seq::new(v.len(), |k: int| (v[k].0 as int, v[k].1 as int))
}

/// Lists the (database, metric) pairs of the configuration in plan order.
pub fn plan(cfg: &Configuration) -> (out: Vec<(usize, usize)>)
    ensures
        as_plan(out@) == planned(cfg.databases@),
        out@.len() == metric_count(cfg.databases@),
        plan_in_bounds(cfg.databases@, as_plan(out@)),
{
    let mut out: Vec<(usize, usize)> = Vec::new();
    let mut d: usize = 0;
    assert(cfg.databases@.subrange(0, 0) =~= Seq::<Database>::empty());
    assert(as_plan(out@) =~= planned(cfg.databases@.subrange(0, 0)));
    while d < cfg.databases.len()
        invariant
            d <= cfg.databases@.len(),
            as_plan(out@) == planned(cfg.databases@.subrange(0, d as int)),
        decreases cfg.databases@.len() - d,
    {
        let ghost head = planned(cfg.databases@.subrange(0, d as int));
        let ghost upto = cfg.databases@.subrange(0, d + 1);
        let mut j: usize = 0;
        assert(as_plan(out@) =~= head + Seq::new(0, |x: int| (d as int, x)));
        while j < cfg.databases[d].metrics.len()
            invariant
                d < cfg.databases@.len(),
                j <= cfg.databases@[d as int].metrics@.len(),
                as_plan(out@) == head + Seq::new(j as nat, |x: int| (d as int, x)),
            decreases cfg.databases@[d as int].metrics@.len() - j,
        {
            let ghost before = out@;
            out.push((d, j));
            assert(as_plan(out@) =~= as_plan(before).push((d as int, j as int)));
            assert(as_plan(out@) =~= head + Seq::new((j + 1) as nat, |x: int| (d as int, x)));
            j += 1;
        }
        proof {
            assert(upto.drop_last() =~= cfg.databases@.subrange(0, d as int));
            assert(upto.last() == cfg.databases@[d as int]);
            assert(Seq::new(j as nat, |x: int| (d as int, x)) =~= Seq::new(
                upto.last().metrics@.len(),
                |x: int| (upto.len() - 1, x),
            ));
        }
        d += 1;
    }
    proof {
        assert(cfg.databases@.subrange(0, d as int) =~= cfg.databases@);
        lemma_planned(cfg.databases@);
        assert(as_plan(out@).len() == out@.len());
    }
    out
}

} // verus!
