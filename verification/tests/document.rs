use jikji::config::{parse_driver, parse_kind, Configuration, Database, Driver, MetricSpec};
use jikji::registry::MetricKind;
use jikji::scheduler::Scheduler;

const TEST_CONFIG: &str = r###"
title = "Default Jikji Config"

[[databases]]
driver = "postgres"
hostname = "127.0.0.1"
port = 5432
username = "postgres"
password= "secret"
database= "postgres"

[[databases.metrics]]
name="hubspot.actions.delayed"
type="counter"
frequency="15m"
query = """ \
    select count(*) from actions_scheduled
    where completed is null
    and scheduled < now() - interval '15 minutes'
    and scheduled > now() - interval '1 day';
    """
"###;

fn text(table: &toml::Table, key: &str) -> String {
    table[key].as_str().unwrap().to_string()
}

fn config() -> Configuration {
    let document: toml::Table = toml::from_str(TEST_CONFIG).unwrap();
    let mut databases = Vec::new();
    for entry in document["databases"].as_array().unwrap() {
        let entry = entry.as_table().unwrap();
        let mut metrics = Vec::new();
        for metric in entry["metrics"].as_array().unwrap() {
            let metric = metric.as_table().unwrap();
            metrics.push(MetricSpec {
                name: text(metric, "name"),
                kind: parse_kind(&text(metric, "type")).unwrap(),
                frequency: text(metric, "frequency"),
                query: text(metric, "query"),
            });
        }
        databases.push(Database {
            driver: text(entry, "driver"),
            hostname: text(entry, "hostname"),
            port: entry["port"].as_integer().unwrap() as u16,
            username: text(entry, "username"),
            password: text(entry, "password"),
            database: text(entry, "database"),
            metrics,
        });
    }
    Configuration { title: text(&document, "title"), databases }
}

#[test]
fn parses_name() {
    assert_eq!(config().title, String::from("Default Jikji Config"));
}

#[test]
fn parses_database_driver() {
    assert_eq!(config().databases.get(0).unwrap().driver, String::from("postgres"));
}

#[test]
fn parses_metric_name() {
    assert_eq!(
        config().databases.get(0).unwrap().metrics.get(0).unwrap().name,
        String::from("hubspot.actions.delayed")
    );
}

#[test]
fn document_becomes_one_job() {
    let cfg = config();
    assert_eq!(parse_driver(&cfg.databases[0].driver), Some(Driver::Postgres));
    let s = Scheduler::new(&cfg).unwrap();
    assert_eq!(s.job_count(), 1);
    let job = s.job(0).unwrap();
    assert_eq!(job.name, "hubspot.actions.delayed");
    assert_eq!(job.kind, MetricKind::Counter);
    assert_eq!(job.period_secs, 900);
    assert_eq!(job.driver, Driver::Postgres);
    assert_eq!(job.database, 0);
    assert!(job.query.contains("select count(*) from actions_scheduled"));
}
