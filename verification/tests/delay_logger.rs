use chrono::{DateTime, Utc};
use delay_mirror::delay_logger::{DelayAction, DelayLogEntry, DelayLogger, PackageType};
use delay_mirror::json::Json;
use delay_mirror::timestamp::Timestamp;
use serde_json::Value;

/// The same moment in chrono's form.
fn moment(t: &Timestamp) -> DateTime<Utc> {
    DateTime::from_timestamp(t.secs, t.nanos).unwrap()
}

/// The value that serde_json holds for the same JSON.
fn shown(json: &Json) -> Value {
    match json {
        Json::Null => Value::Null,
        Json::Bool(b) => Value::Bool(*b),
        Json::Number(n) => serde_json::from_str(n).unwrap(),
        Json::Str(s) => Value::String(s.clone()),
        Json::Array(items) => Value::Array(items.iter().map(shown).collect()),
        Json::Object(members) => Value::Object(
            members
                .iter()
                .map(|(name, value)| (name.clone(), shown(value)))
                .collect(),
        ),
    }
}

#[test]
fn test_package_type_display() {
    assert_eq!(PackageType::Npm.to_string(), "npm");
    assert_eq!(PackageType::GoMod.to_string(), "gomod");
    assert_eq!(PackageType::PyPI.to_string(), "pypi");
}

#[test]
fn test_delay_action_display() {
    assert_eq!(DelayAction::Allowed.to_string(), "allowed");
    assert_eq!(DelayAction::Denied.to_string(), "denied");
    assert_eq!(DelayAction::Downgraded.to_string(), "downgraded");
}

#[test]
fn test_delay_log_entry_new_denied() {
    let entry = DelayLogEntry::new(
        PackageType::Npm,
        "axios".to_string(),
        "1.6.0".to_string(),
        None,
        DelayAction::Denied,
        "Version too recent".to_string(),
        Some("192.168.1.100".to_string()),
    );

    assert_eq!(entry.package_type, PackageType::Npm);
    assert_eq!(entry.package_name, "axios");
    assert_eq!(entry.original_version, "1.6.0");
    assert!(entry.actual_version.is_none());
    assert_eq!(entry.action, DelayAction::Denied);
    assert_eq!(entry.reason, "Version too recent");
    assert_eq!(entry.client_ip, Some("192.168.1.100".to_string()));
    assert_eq!(entry.event, "version_check");
}

#[test]
fn test_delay_log_entry_new_downgraded() {
    let entry = DelayLogEntry::new(
        PackageType::GoMod,
        "github.com/gin-gonic/gin".to_string(),
        "v1.10.0".to_string(),
        Some("v1.9.1".to_string()),
        DelayAction::Downgraded,
        "Auto-downgraded for security".to_string(),
        None,
    );

    assert_eq!(entry.package_type, PackageType::GoMod);
    assert_eq!(entry.original_version, "v1.10.0");
    assert_eq!(entry.actual_version, Some("v1.9.1".to_string()));
    assert_eq!(entry.action, DelayAction::Downgraded);
    assert!(entry.client_ip.is_none());
}

#[test]
fn test_delay_log_entry_serialization_denied() {
    let entry = DelayLogEntry::new(
        PackageType::Npm,
        "lodash".to_string(),
        "4.18.0".to_string(),
        None,
        DelayAction::Denied,
        "Published 1 day ago, below 3-day threshold".to_string(),
        Some("10.0.0.1".to_string()),
    );

    let parsed = shown(&entry.to_json());

    assert_eq!(parsed["event"], "version_check");
    assert_eq!(parsed["package_type"], "npm");
    assert_eq!(parsed["package"], "lodash");
    assert_eq!(parsed["original_version"], "4.18.0");
    assert!(parsed.get("actual_version").is_none() || parsed["actual_version"].is_null());
    assert_eq!(parsed["action"], "denied");
    assert_eq!(
        parsed["reason"],
        "Published 1 day ago, below 3-day threshold"
    );
    assert_eq!(parsed["client_ip"], "10.0.0.1");
    assert!(parsed.get("timestamp").is_some());
}

#[test]
fn test_delay_log_entry_serialization_downgraded() {
    let entry = DelayLogEntry::new(
        PackageType::PyPI,
        "numpy".to_string(),
        "2.0.0".to_string(),
        Some("1.26.4".to_string()),
        DelayAction::Downgraded,
        "Version published 2 days ago, below 3-day threshold".to_string(),
        Some("172.16.0.5".to_string()),
    );

    let parsed = shown(&entry.to_json());

    assert_eq!(parsed["event"], "version_check");
    assert_eq!(parsed["package_type"], "pypi");
    assert_eq!(parsed["package"], "numpy");
    assert_eq!(parsed["original_version"], "2.0.0");
    assert_eq!(parsed["actual_version"], "1.26.4");
    assert_eq!(parsed["action"], "downgraded");
    assert_eq!(
        parsed["reason"],
        "Version published 2 days ago, below 3-day threshold"
    );
    assert_eq!(parsed["client_ip"], "172.16.0.5");
}

#[test]
fn test_default_impl() {
    let logger = DelayLogger;
    let entry = logger.log_blocked(PackageType::Npm, "default-test", "1.0.0", "test", None);
    assert_eq!(entry.package_name, "default-test");
    assert_eq!(entry.original_version, "1.0.0");
    assert_eq!(entry.reason, "test");
    assert_eq!(entry.action, DelayAction::Denied);
    assert!(entry.client_ip.is_none());
}

#[test]
fn test_package_type_equality() {
    assert_eq!(PackageType::Npm, PackageType::Npm);
    assert_ne!(PackageType::Npm, PackageType::GoMod);
    assert_ne!(PackageType::GoMod, PackageType::PyPI);
}

#[test]
fn test_delay_action_equality() {
    assert_eq!(DelayAction::Allowed, DelayAction::Allowed);
    assert_ne!(DelayAction::Allowed, DelayAction::Denied);
    assert_ne!(DelayAction::Denied, DelayAction::Downgraded);
}

#[test]
fn test_delay_log_entry_with_empty_client_ip() {
    let entry = DelayLogEntry::new(
        PackageType::Npm,
        "test-pkg".to_string(),
        "1.0.0".to_string(),
        None,
        DelayAction::Allowed,
        "Test with no IP".to_string(),
        None,
    );

    assert!(entry.client_ip.is_none());
    assert_eq!(entry.action, DelayAction::Allowed);

    let parsed = shown(&entry.to_json());
    assert!(parsed.get("client_ip").is_none() || parsed["client_ip"].is_null());
}

#[test]
fn test_delay_log_entry_long_reason() {
    let long_reason = "A".repeat(500);
    let entry = DelayLogEntry::new(
        PackageType::PyPI,
        "long-reason-pkg".to_string(),
        "1.0.0".to_string(),
        None,
        DelayAction::Denied,
        long_reason.clone(),
        None,
    );

    assert_eq!(entry.reason.len(), 500);

    let parsed = shown(&entry.to_json());
    assert_eq!(parsed["reason"], long_reason.as_str());
}

#[test]
fn test_delay_log_entry_special_characters_in_package_name() {
    let entry = DelayLogEntry::new(
        PackageType::Npm,
        "@scope/package-name".to_string(),
        "1.0.0".to_string(),
        Some("0.9.0".to_string()),
        DelayAction::Downgraded,
        "Special chars test".to_string(),
        None,
    );

    assert_eq!(entry.package_name, "@scope/package-name");

    let parsed = shown(&entry.to_json());
    assert_eq!(parsed["package"], "@scope/package-name");
}

#[test]
fn test_multiple_entries_different_types() {
    let npm_entry = DelayLogEntry::new(
        PackageType::Npm,
        "npm-pkg".to_string(),
        "2.0.0".to_string(),
        None,
        DelayAction::Denied,
        "NPM test".to_string(),
        Some("192.168.1.1".to_string()),
    );

    let gomod_entry = DelayLogEntry::new(
        PackageType::GoMod,
        "gomod-pkg".to_string(),
        "v3.0.0".to_string(),
        Some("v2.0.0".to_string()),
        DelayAction::Downgraded,
        "GoMod test".to_string(),
        Some("10.0.0.1".to_string()),
    );

    let pypi_entry = DelayLogEntry::new(
        PackageType::PyPI,
        "pypi-pkg".to_string(),
        "1.5.0".to_string(),
        None,
        DelayAction::Allowed,
        "PyPI test".to_string(),
        None,
    );

    assert_eq!(npm_entry.package_type, PackageType::Npm);
    assert_eq!(gomod_entry.package_type, PackageType::GoMod);
    assert_eq!(pypi_entry.package_type, PackageType::PyPI);

    assert_eq!(npm_entry.action, DelayAction::Denied);
    assert_eq!(gomod_entry.action, DelayAction::Downgraded);
    assert_eq!(pypi_entry.action, DelayAction::Allowed);
}

#[test]
fn test_timestamp_is_auto_generated() {
    let before = Utc::now();
    let entry = DelayLogEntry::new(
        PackageType::Npm,
        "timestamp-test".to_string(),
        "1.0.0".to_string(),
        None,
        DelayAction::Allowed,
        "Timestamp test".to_string(),
        None,
    );
    let after = Utc::now();

    assert!(moment(&entry.timestamp) >= before);
    assert!(moment(&entry.timestamp) <= after);
}

#[test]
fn test_event_type_is_constant() {
    let entry1 = DelayLogEntry::new(
        PackageType::Npm,
        "pkg1".to_string(),
        "1.0.0".to_string(),
        None,
        DelayAction::Allowed,
        "Test".to_string(),
        None,
    );

    let entry2 = DelayLogEntry::new(
        PackageType::GoMod,
        "pkg2".to_string(),
        "2.0.0".to_string(),
        Some("1.0.0".to_string()),
        DelayAction::Denied,
        "Test 2".to_string(),
        Some("127.0.0.1".to_string()),
    );

    assert_eq!(entry1.event, "version_check");
    assert_eq!(entry2.event, "version_check");
}

#[test]
fn a_version_that_is_served_as_it_is_has_a_line() {
    let entry =
        DelayLogger::new().log_allowed(PackageType::PyPI, "requests", "2.0", Some("10.0.0.1"));
    assert_eq!(entry.event, "version_check");
    assert_eq!(entry.action, DelayAction::Allowed);
    assert_eq!(entry.package_type, PackageType::PyPI);
    assert_eq!(entry.package_name, "requests");
    assert_eq!(entry.original_version, "2.0");
    assert_eq!(entry.actual_version, None);
    assert_eq!(entry.reason, "Version passed delay check");
    assert_eq!(entry.client_ip, Some("10.0.0.1".to_string()));
}
