use google_ddns::config::{config_path, Config, ConfigError, IpSource, Record};
use std::path::PathBuf;

fn record(name: &str, ttl: Option<i64>, ip_source: IpSource) -> Record {
    Record { name: name.to_string(), ttl, ip_source }
}

fn config(interval: Option<u64>, records: Vec<Record>) -> Config {
    Config {
        credentials_file: "/config/service-account.json".to_string(),
        managed_zone: "my-zone".to_string(),
        interval_secs: interval,
        records,
    }
}

#[test]
fn interval_defaults_to_300() {
    assert_eq!(config(None, vec![]).interval_secs(), 300);
    assert_eq!(config(Some(45), vec![]).interval_secs(), 45);
}

#[test]
fn poll_interval_is_at_least_30() {
    assert_eq!(config(Some(5), vec![]).poll_interval_secs(), 30);
    assert_eq!(config(Some(30), vec![]).poll_interval_secs(), 30);
    assert_eq!(config(Some(600), vec![]).poll_interval_secs(), 600);
    assert_eq!(config(None, vec![]).poll_interval_secs(), 300);
}

#[test]
fn credentials_path_is_the_configured_file() {
    assert_eq!(
        config(None, vec![]).credentials_path(),
        PathBuf::from("/config/service-account.json")
    );
}

#[test]
fn record_ttl_defaults_to_300() {
    assert_eq!(record("a.example.com.", None, IpSource::v4).ttl(), 300);
    assert_eq!(record("a.example.com.", Some(60), IpSource::v4).ttl(), 60);
    assert_eq!(record("a.example.com.", Some(-5), IpSource::v4).ttl(), -5);
}

#[test]
fn record_type_follows_ip_source() {
    assert_eq!(record("a.", None, IpSource::v4).rtype(), "A");
    assert_eq!(record("a.", None, IpSource::v6).rtype(), "AAAA");
}

#[test]
fn needs_only_the_families_in_use() {
    let only_v4 = config(None, vec![record("a.", None, IpSource::v4)]);
    assert!(only_v4.needs_v4());
    assert!(!only_v4.needs_v6());
    let both = config(
        None,
        vec![record("a.", None, IpSource::v4), record("*.b.", None, IpSource::v6)],
    );
    assert!(both.needs_v4());
    assert!(both.needs_v6());
    let none = config(None, vec![]);
    assert!(!none.needs_v4());
    assert!(!none.needs_v6());
}

#[test]
fn validate_accepts_fully_qualified_names() {
    let cfg = config(
        Some(300),
        vec![
            record("ddns.example.com.", Some(300), IpSource::v4),
            record("*.example.com.", Some(300), IpSource::v6),
        ],
    );
    assert_eq!(cfg.validate(), Ok(()));
}

#[test]
fn validate_refuses_empty_records() {
    let err = config(None, vec![]).validate().unwrap_err();
    assert_eq!(err, ConfigError::NoRecords);
    assert_eq!(err.message(), "no \"records\" defined in config");
}

#[test]
fn validate_reports_first_unqualified_name() {
    let cfg = config(
        None,
        vec![
            record("ok.example.com.", None, IpSource::v4),
            record("ddns.example.com", None, IpSource::v4),
            record("other", None, IpSource::v6),
        ],
    );
    let err = cfg.validate().unwrap_err();
    assert_eq!(err, ConfigError::NotFullyQualified("ddns.example.com".to_string()));
    assert_eq!(
        err.message(),
        "record name 'ddns.example.com' must be a FQDN ending with '.'"
    );
}

#[test]
fn validate_refuses_empty_name() {
    let cfg = config(None, vec![record("", None, IpSource::v4)]);
    assert_eq!(cfg.validate(), Err(ConfigError::NotFullyQualified(String::new())));
}

#[test]
fn config_path_prefers_environment_then_argument() {
    assert_eq!(
        config_path(Some("/etc/ddns.json".to_string()), Some("x.json".to_string())),
        "/etc/ddns.json"
    );
    assert_eq!(config_path(None, Some("x.json".to_string())), "x.json");
    assert_eq!(config_path(None, None), "/config/config.json");
}
