use jikji::config::{parse_driver, parse_kind, plan, Configuration, Database, Driver, MetricSpec};
use jikji::error::ConfigError;
use jikji::model::{Health, JobState, Phase, TickAction};
use jikji::registry::MetricKind;
use jikji::scheduler::{convert, ExecutionError, QueryResult, Scheduler};

fn metric(name: &str, kind: MetricKind, frequency: &str) -> MetricSpec {
    MetricSpec {
        name: name.to_string(),
        kind,
        frequency: frequency.to_string(),
        query: format!("select count(*) from {}", name),
    }
}

fn database(driver: &str, metrics: Vec<MetricSpec>) -> Database {
    Database {
        driver: driver.to_string(),
        hostname: "127.0.0.1".to_string(),
        port: 5432,
        username: "postgres".to_string(),
        password: "secret".to_string(),
        database: "postgres".to_string(),
        metrics,
    }
}

fn config(databases: Vec<Database>) -> Configuration {
    Configuration { title: "Default Jikji Config".to_string(), databases }
}

fn running(databases: Vec<Database>) -> Scheduler {
    let mut s = Scheduler::new(&config(databases)).unwrap();
    s.start();
    s
}

fn text(s: &Scheduler) -> String {
    String::from_utf8(s.export()).unwrap()
}

fn refusal(databases: Vec<Database>) -> ConfigError {
    match Scheduler::new(&config(databases)) {
        Ok(_) => panic!("the configuration was accepted"),
        Err(e) => e,
    }
}

#[test]
fn drivers_and_kinds_are_read_by_name() {
    assert_eq!(parse_driver("postgres"), Some(Driver::Postgres));
    assert_eq!(parse_driver("mysql"), Some(Driver::Mysql));
    assert_eq!(parse_driver("sqlite"), Some(Driver::Sqlite));
    assert_eq!(parse_driver("Postgres"), None);
    assert_eq!(parse_driver(""), None);
    assert_eq!(parse_kind("counter"), Some(MetricKind::Counter));
    assert_eq!(parse_kind("gauge"), Some(MetricKind::Gauge));
    assert_eq!(parse_kind("histogram"), Some(MetricKind::Histogram));
    assert_eq!(parse_kind("summary"), None);
}

#[test]
fn plan_lists_every_metric_in_order() {
    let cfg = config(vec![
        database("postgres", vec![metric("a", MetricKind::Gauge, "1s"), metric("b", MetricKind::Gauge, "1s")]),
        database("mysql", vec![]),
        database("sqlite", vec![metric("c", MetricKind::Gauge, "1s")]),
    ]);
    assert_eq!(plan(&cfg), vec![(0, 0), (0, 1), (2, 0)]);
    assert_eq!(plan(&config(vec![])), vec![]);
}

#[test]
fn one_job_for_each_metric() {
    let s = Scheduler::new(&config(vec![
        database("postgres", vec![metric("a", MetricKind::Gauge, "15m"), metric("b", MetricKind::Counter, "1h")]),
        database("mysql", vec![metric("c", MetricKind::Histogram, "30s")]),
    ]))
    .unwrap();
    assert_eq!(s.phase(), Phase::Initializing);
    assert_eq!(s.job_count(), 3);
    let names: Vec<&str> = (0..3).map(|i| s.job(i).unwrap().name.as_str()).collect();
    assert_eq!(names, vec!["a", "b", "c"]);
    assert_eq!(s.job(0).unwrap().period_secs, 900);
    assert_eq!(s.job(1).unwrap().period_secs, 3600);
    assert_eq!(s.job(2).unwrap().period_secs, 30);
    assert_eq!(s.job(1).unwrap().database, 0);
    assert_eq!(s.job(2).unwrap().database, 1);
    assert_eq!(s.job(2).unwrap().driver, Driver::Mysql);
    assert_eq!(s.job(1).unwrap().kind, MetricKind::Counter);
    assert_eq!(s.job(1).unwrap().query, "select count(*) from b");
    assert!(s.job(3).is_none());
    assert_eq!(s.job_state(0), Some(JobState::Idle));
    assert_eq!(s.job_health(0), Some(Health::Healthy));
    assert_eq!(s.job_state(3), None);
    assert_eq!(s.snapshot().entries.len(), 3);
    assert!(!s.value("a").unwrap().populated);
    assert_eq!(s.value("c").unwrap().kind, MetricKind::Histogram);
    assert_eq!(text(&s), "");
}

#[test]
fn invalid_configurations_are_refused_whole() {
    assert_eq!(
        refusal(vec![database("oracle", vec![metric("a", MetricKind::Gauge, "1s")])]),
        ConfigError::UnknownDriver
    );
    assert_eq!(refusal(vec![database("oracle", vec![])]), ConfigError::UnknownDriver);
    for bad in ["0m", "-5m", "abc"] {
        assert_eq!(
            refusal(vec![database("postgres", vec![metric("a", MetricKind::Gauge, "1s"), metric("b", MetricKind::Gauge, bad)])]),
            ConfigError::InvalidFrequency
        );
    }
    assert_eq!(
        refusal(vec![
            database("postgres", vec![metric("a", MetricKind::Gauge, "1s")]),
            database("mysql", vec![metric("a", MetricKind::Gauge, "1s")]),
        ]),
        ConfigError::DuplicateMetricName
    );
    assert_eq!(
        refusal(vec![database("postgres", vec![metric("a", MetricKind::Gauge, "1s"), metric("a", MetricKind::Counter, "1s")])]),
        ConfigError::DuplicateMetricName
    );
}

#[test]
fn refusals_are_ranked() {
    assert_eq!(
        refusal(vec![
            database("postgres", vec![metric("a", MetricKind::Gauge, "1s"), metric("a", MetricKind::Gauge, "x")]),
            database("oracle", vec![]),
        ]),
        ConfigError::UnknownDriver
    );
    assert_eq!(
        refusal(vec![database(
            "postgres",
            vec![metric("a", MetricKind::Gauge, "1s"), metric("a", MetricKind::Gauge, "1s"), metric("b", MetricKind::Gauge, "x")]
        )]),
        ConfigError::InvalidFrequency
    );
}

#[test]
fn empty_configuration_has_no_jobs() {
    let mut s = Scheduler::new(&config(vec![])).unwrap();
    assert_eq!(s.job_count(), 0);
    s.start();
    assert_eq!(s.tick(0), TickAction::UnknownJob);
    assert_eq!(s.shutdown(0, 10), Phase::Stopped);
}

#[test]
fn outcomes_convert_by_kind() {
    assert_eq!(convert(MetricKind::Counter, &Ok(QueryResult::Scalar(42))), Some(42));
    assert_eq!(convert(MetricKind::Counter, &Ok(QueryResult::Scalar(0))), Some(0));
    assert_eq!(convert(MetricKind::Counter, &Ok(QueryResult::Scalar(-1))), None);
    assert_eq!(convert(MetricKind::Gauge, &Ok(QueryResult::Scalar(-1))), Some(-1));
    assert_eq!(convert(MetricKind::Histogram, &Ok(QueryResult::Scalar(-1))), Some(-1));
    assert_eq!(convert(MetricKind::Gauge, &Ok(QueryResult::Row(vec![7, 8]))), Some(7));
    assert_eq!(convert(MetricKind::Counter, &Ok(QueryResult::Row(vec![-7, 8]))), None);
    assert_eq!(convert(MetricKind::Gauge, &Ok(QueryResult::Row(vec![]))), None);
    assert_eq!(convert(MetricKind::Gauge, &Err(ExecutionError::ConnectionError)), None);
    assert_eq!(convert(MetricKind::Gauge, &Err(ExecutionError::QueryError)), None);
}

#[test]
fn ticks_before_start_run_nothing() {
    let mut s = Scheduler::new(&config(vec![database("postgres", vec![metric("a", MetricKind::Gauge, "1s")])])).unwrap();
    assert_eq!(s.tick(0), TickAction::NotRunning);
    assert_eq!(s.job_state(0), Some(JobState::Idle));
    s.start();
    assert_eq!(s.phase(), Phase::Running);
    assert_eq!(s.tick(0), TickAction::Execute);
    assert_eq!(s.tick(1), TickAction::UnknownJob);
    s.start();
    assert_eq!(s.phase(), Phase::Running);
    assert_eq!(s.job_state(0), Some(JobState::Running));
}

#[test]
fn slow_job_is_not_started_twice() {
    // One tick each second; each execution takes three seconds.
    let mut s = running(vec![database("postgres", vec![metric("slow", MetricKind::Gauge, "1s")])]);
    let mut started: Vec<u64> = Vec::new();
    let mut ends_at: Option<u64> = None;
    for now in 1..=5u64 {
        if ends_at == Some(now) {
            assert!(s.complete(0, &Ok(QueryResult::Scalar(now as i64)), now));
            ends_at = None;
        }
        match s.tick(0) {
            TickAction::Execute => {
                assert_eq!(ends_at, None);
                started.push(now);
                ends_at = Some(now + 3);
            }
            TickAction::Skipped => assert!(ends_at.is_some()),
            other => panic!("{:?}", other),
        }
    }
    assert_eq!(started, vec![1, 4]);
    assert_eq!(s.value("slow").unwrap().value, 4);
}

#[test]
fn skipped_tick_changes_nothing() {
    let mut s = running(vec![database("postgres", vec![metric("a", MetricKind::Gauge, "1s")])]);
    assert_eq!(s.tick(0), TickAction::Execute);
    assert_eq!(s.tick(0), TickAction::Skipped);
    assert_eq!(s.job_state(0), Some(JobState::Running));
    assert_eq!(s.job_health(0), Some(Health::Healthy));
    assert_eq!(s.executing(0), Some(0));
    assert!(!s.value("a").unwrap().last_attempt_failed);
}

#[test]
fn one_database_executes_one_job_at_a_time() {
    let mut s = running(vec![
        database("postgres", vec![metric("a", MetricKind::Gauge, "1s"), metric("b", MetricKind::Gauge, "1s")]),
        database("mysql", vec![metric("c", MetricKind::Gauge, "1s")]),
    ]);
    assert_eq!(s.executing(0), None);
    assert_eq!(s.tick(0), TickAction::Execute);
    assert_eq!(s.tick(1), TickAction::AwaitSlot);
    assert_eq!(s.job_state(1), Some(JobState::Waiting));
    assert_eq!(s.tick(1), TickAction::Skipped);
    assert_eq!(s.tick(2), TickAction::Execute);
    assert_eq!(s.executing(0), Some(0));
    assert_eq!(s.executing(1), Some(2));
    assert_eq!(s.executing(2), None);
    assert_eq!(s.retry(1), TickAction::AwaitSlot);
    assert_eq!(s.retry(0), TickAction::Skipped);
    assert_eq!(s.retry(9), TickAction::UnknownJob);
    assert!(s.complete(0, &Ok(QueryResult::Scalar(1)), 5));
    assert_eq!(s.executing(0), None);
    assert_eq!(s.retry(1), TickAction::Execute);
    assert_eq!(s.executing(0), Some(1));
    assert_eq!(s.job_state(0), Some(JobState::Idle));
    assert_eq!(s.tick(0), TickAction::AwaitSlot);
}

#[test]
fn complete_without_an_execution_is_ignored() {
    let mut s = running(vec![database("postgres", vec![metric("a", MetricKind::Gauge, "1s"), metric("b", MetricKind::Gauge, "1s")])]);
    assert!(!s.complete(0, &Ok(QueryResult::Scalar(1)), 1));
    assert!(!s.complete(7, &Ok(QueryResult::Scalar(1)), 1));
    assert_eq!(s.tick(0), TickAction::Execute);
    assert_eq!(s.tick(1), TickAction::AwaitSlot);
    assert!(!s.complete(1, &Ok(QueryResult::Scalar(1)), 1));
    assert_eq!(s.job_state(1), Some(JobState::Waiting));
    assert!(!s.value("a").unwrap().populated);
    assert!(!s.value("b").unwrap().populated);
    assert_eq!(text(&s), "");
}

#[test]
fn failing_job_does_not_reach_another_database() {
    let mut s = running(vec![
        database("postgres", vec![metric("bad", MetricKind::Gauge, "1s")]),
        database("mysql", vec![metric("good", MetricKind::Gauge, "1s")]),
    ]);
    for now in 1..=10u64 {
        assert_eq!(s.tick(0), TickAction::Execute);
        assert_eq!(s.tick(1), TickAction::Execute);
        assert!(s.complete(0, &Err(ExecutionError::ConnectionError), now));
        assert_eq!(s.value("good").unwrap().populated, now > 1);
        assert!(s.complete(1, &Ok(QueryResult::Scalar(100 + now as i64)), now));
        assert_eq!(s.value("good").unwrap().value, 100 + now as i64);
        assert_eq!(s.value("good").unwrap().updated_at, now);
        assert!(!s.value("good").unwrap().last_attempt_failed);
        assert!(!s.value("bad").unwrap().populated);
        assert!(s.value("bad").unwrap().last_attempt_failed);
    }
    assert_eq!(s.job_health(0), Some(Health::Degraded));
    assert_eq!(s.job_health(1), Some(Health::Healthy));
    assert_eq!(text(&s), "# TYPE good gauge\ngood 110\n");
}

#[test]
fn end_to_end_stale_but_present() {
    let cfg = config(vec![database(
        "postgres",
        vec![MetricSpec {
            name: "jobs.delayed".to_string(),
            kind: parse_kind("counter").unwrap(),
            frequency: "15m".to_string(),
            query: "select count(*) from actions_scheduled".to_string(),
        }],
    )]);
    let mut s = Scheduler::new(&cfg).unwrap();
    s.start();
    assert_eq!(s.job(0).unwrap().period_secs, 900);
    assert_eq!(text(&s), "");
    assert_eq!(s.tick(0), TickAction::Execute);
    assert!(s.complete(0, &Ok(QueryResult::Scalar(42)), 900));
    assert_eq!(text(&s), "# TYPE jobs.delayed counter\njobs.delayed 42\n");
    assert_eq!(s.tick(0), TickAction::Execute);
    assert!(s.complete(0, &Err(ExecutionError::ConnectionError), 1800));
    assert_eq!(text(&s), "# TYPE jobs.delayed counter\njobs.delayed 42\n");
    assert_eq!(s.value("jobs.delayed").unwrap().updated_at, 900);
    assert!(s.value("jobs.delayed").unwrap().last_attempt_failed);
    assert_eq!(s.job_health(0), Some(Health::Degraded));
    assert_eq!(s.tick(0), TickAction::Execute);
    assert!(s.complete(0, &Err(ExecutionError::QueryError), 2700));
    assert_eq!(s.tick(0), TickAction::Execute);
    assert!(s.complete(0, &Ok(QueryResult::Row(vec![43])), 3600));
    assert_eq!(text(&s), "# TYPE jobs.delayed counter\njobs.delayed 43\n");
    assert_eq!(s.job_health(0), Some(Health::Healthy));
}

#[test]
fn negative_counter_is_a_failed_collection() {
    let mut s = running(vec![database("postgres", vec![metric("n", MetricKind::Counter, "1s")])]);
    assert_eq!(s.tick(0), TickAction::Execute);
    assert!(s.complete(0, &Ok(QueryResult::Scalar(5)), 1));
    assert_eq!(s.tick(0), TickAction::Execute);
    assert!(s.complete(0, &Ok(QueryResult::Scalar(-5)), 2));
    assert_eq!(s.value("n").unwrap().value, 5);
    assert!(s.value("n").unwrap().last_attempt_failed);
    assert_eq!(s.job_health(0), Some(Health::Degraded));
    assert_eq!(s.job_state(0), Some(JobState::Idle));
}

#[test]
fn shutdown_with_nothing_in_flight_stops() {
    let mut s = running(vec![database("postgres", vec![metric("a", MetricKind::Gauge, "1s")])]);
    assert_eq!(s.shutdown(10, 30), Phase::Stopped);
    assert_eq!(s.tick(0), TickAction::NotRunning);
    assert_eq!(s.shutdown(11, 30), Phase::Stopped);
    s.start();
    assert_eq!(s.phase(), Phase::Stopped);
    let mut fresh = Scheduler::new(&config(vec![])).unwrap();
    assert_eq!(fresh.shutdown(0, 0), Phase::Stopped);
}

#[test]
fn shutdown_lets_executions_finish() {
    let mut s = running(vec![
        database("postgres", vec![metric("a", MetricKind::Gauge, "1s"), metric("w", MetricKind::Gauge, "1s")]),
        database("mysql", vec![metric("b", MetricKind::Gauge, "1s")]),
    ]);
    assert_eq!(s.tick(0), TickAction::Execute);
    assert_eq!(s.tick(1), TickAction::AwaitSlot);
    assert_eq!(s.tick(2), TickAction::Execute);
    assert_eq!(s.shutdown(100, 30), Phase::ShuttingDown);
    assert_eq!(s.tick(0), TickAction::NotRunning);
    assert_eq!(s.retry(1), TickAction::NotRunning);
    assert_eq!(s.job_state(1), Some(JobState::Idle));
    assert_eq!(s.expire(129), Phase::ShuttingDown);
    assert!(s.complete(0, &Ok(QueryResult::Scalar(1)), 110));
    assert_eq!(s.phase(), Phase::ShuttingDown);
    assert!(s.complete(2, &Ok(QueryResult::Scalar(2)), 120));
    assert_eq!(s.phase(), Phase::Stopped);
    assert_eq!(text(&s), "# TYPE a gauge\na 1\n# TYPE b gauge\nb 2\n");
}

#[test]
fn results_after_the_grace_period_are_dropped() {
    let mut s = running(vec![database("postgres", vec![metric("a", MetricKind::Gauge, "1s")])]);
    assert_eq!(s.tick(0), TickAction::Execute);
    assert!(s.complete(0, &Ok(QueryResult::Scalar(1)), 1));
    assert_eq!(s.tick(0), TickAction::Execute);
    assert_eq!(s.shutdown(100, 30), Phase::ShuttingDown);
    assert_eq!(s.expire(130), Phase::Stopped);
    assert!(!s.complete(0, &Ok(QueryResult::Scalar(2)), 131));
    assert_eq!(s.value("a").unwrap().value, 1);
    assert_eq!(s.value("a").unwrap().updated_at, 1);
    assert_eq!(s.job_state(0), Some(JobState::Idle));
    assert_eq!(s.executing(0), None);
    assert_eq!(s.expire(500), Phase::Stopped);
}

#[test]
fn grace_deadline_saturates() {
    let mut s = running(vec![database("postgres", vec![metric("a", MetricKind::Gauge, "1s")])]);
    assert_eq!(s.tick(0), TickAction::Execute);
    assert_eq!(s.shutdown(u64::MAX - 1, 5), Phase::ShuttingDown);
    assert_eq!(s.expire(u64::MAX - 1), Phase::ShuttingDown);
    assert_eq!(s.expire(u64::MAX), Phase::Stopped);
}
