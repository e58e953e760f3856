use chrono::{DateTime, Duration, Utc};
use delay_mirror::delay_check::{
    compare_versions, DelayCheckError, DelayChecker, VersionCheckResult,
};
use delay_mirror::json::Json;
use delay_mirror::timestamp::Timestamp;

/// A JSON string.
fn text(s: &str) -> Json {
    Json::string(s)
}

/// A JSON object.
fn object(members: Vec<(&str, Json)>) -> Json {
    let mut result = Json::object();
    for (name, value) in members {
        result = result.put(name, value);
    }
    result
}

/// The same moment in chrono's form.
fn moment(t: &Timestamp) -> DateTime<Utc> {
    DateTime::from_timestamp(t.secs, t.nanos).unwrap()
}

/// The same moment in the library's form.
fn stamp(t: &DateTime<Utc>) -> Timestamp {
    Timestamp {
        secs: t.timestamp(),
        nanos: t.timestamp_subsec_nanos(),
    }
}

fn make_sample_time() -> Json {
    object(vec![
        ("created", text("2024-01-01T00:00:00Z")),
        ("modified", text("2024-06-15T12:00:00Z")),
        ("1.0.0", text("2024-01-01T00:00:00Z")),
        ("2.0.0", text("2024-03-01T00:00:00Z")),
        ("3.0.0", text("2024-06-01T00:00:00Z")),
    ])
}

#[test]
fn test_default_delay_checker() {
    let checker = DelayChecker::default();
    assert_eq!(checker.delay_days(), 3);
}

#[test]
fn test_custom_delay_checker() {
    let checker = DelayChecker::new(7);
    assert_eq!(checker.delay_days(), 7);
}

#[test]
fn test_with_delay_days_valid() {
    let checker = DelayChecker::with_delay_days(7).unwrap();
    assert_eq!(checker.delay_days(), 7);
}

#[test]
fn test_with_delay_days_invalid_zero() {
    let result = DelayChecker::with_delay_days(0);
    assert!(result.is_err());
    match result.unwrap_err() {
        DelayCheckError::InvalidDelayDays(_) => {}
        other => panic!("Expected InvalidDelayDays, got {:?}", other),
    }
}

#[test]
fn test_with_delay_days_invalid_negative() {
    let result = DelayChecker::with_delay_days(-1);
    assert!(result.is_err());
    match result.unwrap_err() {
        DelayCheckError::InvalidDelayDays(_) => {}
        other => panic!("Expected InvalidDelayDays, got {:?}", other),
    }
}

#[test]
fn test_parse_time_field_valid() {
    let checker = DelayChecker::default();
    let time_json = make_sample_time();
    let info = checker.parse_time_field(&time_json).unwrap();

    assert_eq!(info.len(), 3);
    assert!(info.get_publish_time("1.0.0").is_some());
    assert!(info.get_publish_time("2.0.0").is_some());
    assert!(info.get_publish_time("3.0.0").is_some());
    assert!(info.get_publish_time("created").is_none());
    assert!(info.get_publish_time("modified").is_none());
}

#[test]
fn test_parse_time_field_not_object() {
    let checker = DelayChecker::default();
    let result = checker.parse_time_field(&text("not_an_object"));
    assert!(result.is_err());
    match result.unwrap_err() {
        DelayCheckError::InvalidTimeFormat(_) => {}
        other => panic!("Expected InvalidTimeFormat, got {:?}", other),
    }
}

#[test]
fn test_parse_time_field_empty_versions() {
    let checker = DelayChecker::default();
    let time_json = object(vec![
        ("created", text("2024-01-01T00:00:00Z")),
        ("modified", text("2024-06-15T12:00:00Z")),
    ]);
    let result = checker.parse_time_field(&time_json);
    assert!(result.is_err());
    match result.unwrap_err() {
        DelayCheckError::MissingTimeField => {}
        other => panic!("Expected MissingTimeField, got {:?}", other),
    }
}

#[test]
fn test_parse_time_field_invalid_timestamp() {
    let checker = DelayChecker::default();
    let time_json = object(vec![
        ("1.0.0", text("not-a-valid-timestamp")),
    ]);
    let result = checker.parse_time_field(&time_json);
    assert!(result.is_err());
    match result.unwrap_err() {
        DelayCheckError::InvalidTimeFormat(_) => {}
        other => panic!("Expected InvalidTimeFormat, got {:?}", other),
    }
}

#[test]
fn test_parse_time_field_non_string_value() {
    let checker = DelayChecker::default();
    let time_json = object(vec![
        ("1.0.0", Json::Number("12345".to_string())),
    ]);
    let result = checker.parse_time_field(&time_json);
    assert!(result.is_err());
    match result.unwrap_err() {
        DelayCheckError::InvalidTimeFormat(_) => {}
        other => panic!("Expected InvalidTimeFormat, got {:?}", other),
    }
}

#[test]
fn test_is_version_allowed_old_version() {
    let checker = DelayChecker::new(30);
    let old_time: DateTime<Utc> = "2024-01-01T00:00:00Z".parse().unwrap();
    assert!(checker.is_version_allowed(&stamp(&old_time)));
}

#[test]
fn test_is_version_allowed_recent_version() {
    let checker = DelayChecker::new(365);
    let recent_time = Utc::now() - Duration::days(1);
    assert!(!checker.is_version_allowed(&stamp(&recent_time)));
}

#[test]
fn test_check_version_allowed() {
    let checker = DelayChecker::new(365);
    let time_json = make_sample_time();
    let info = checker.parse_time_field(&time_json).unwrap();
    let result = checker.check_version("1.0.0", &info).unwrap();
    assert_eq!(result, VersionCheckResult::Allowed);
}

#[test]
fn test_check_version_denied() {
    let checker = DelayChecker::new(30);
    let now = Utc::now();
    let time_json = object(vec![
        ("created", text("2024-01-01T00:00:00Z")),
        ("3.0.0", text(&(now - Duration::days(1)).to_rfc3339())),
    ]);
    let info = checker.parse_time_field(&time_json).unwrap();
    let result = checker.check_version("3.0.0", &info).unwrap();
    match result {
        VersionCheckResult::Denied { .. } => {}
        other => panic!("Expected Denied, got {:?}", other),
    }
}

#[test]
fn test_check_version_not_found() {
    let checker = DelayChecker::default();
    let time_json = make_sample_time();
    let info = checker.parse_time_field(&time_json).unwrap();
    let result = checker.check_version("99.99.99", &info);
    assert!(result.is_err());
    match result.unwrap_err() {
        DelayCheckError::VersionNotFound { version } => {
            assert_eq!(version, "99.99.99");
        }
        other => panic!("Expected VersionNotFound, got {:?}", other),
    }
}

#[test]
fn test_find_eligible_version_already_eligible() {
    let checker = DelayChecker::new(365);
    let time_json = make_sample_time();
    let info = checker.parse_time_field(&time_json).unwrap();
    let result = checker.find_eligible_version("1.0.0", &info).unwrap();
    assert_eq!(result, Some("1.0.0".to_string()));
}

#[test]
fn test_find_eligible_version_downgrades() {
    let checker = DelayChecker::new(30);
    let now = Utc::now();
    let time_json = object(vec![
        ("created", text("2024-01-01T00:00:00Z")),
        ("1.0.0", text(&(now - Duration::days(60)).to_rfc3339())),
        ("2.0.0", text(&(now - Duration::days(10)).to_rfc3339())),
        ("3.0.0", text(&(now - Duration::days(1)).to_rfc3339())),
    ]);
    let info = checker.parse_time_field(&time_json).unwrap();
    let result = checker.find_eligible_version("3.0.0", &info).unwrap();
    assert_eq!(result, Some("1.0.0".to_string()));
}

#[test]
fn test_find_eligible_version_none_eligible() {
    let checker = DelayChecker::new(36500);
    let now = Utc::now();
    let time_json = object(vec![
        ("1.0.0", text(&(now - Duration::days(10)).to_rfc3339())),
        ("2.0.0", text(&(now - Duration::days(5)).to_rfc3339())),
    ]);
    let info = checker.parse_time_field(&time_json).unwrap();
    let result = checker.find_eligible_version("2.0.0", &info).unwrap();
    assert_eq!(result, None);
}

#[test]
fn test_find_eligible_version_selects_latest_eligible() {
    let checker = DelayChecker::new(30);
    let now = Utc::now();
    let time_json = object(vec![
        ("1.0.0", text(&(now - Duration::days(100)).to_rfc3339())),
        ("1.5.0", text(&(now - Duration::days(80)).to_rfc3339())),
        ("2.0.0", text(&(now - Duration::days(50)).to_rfc3339())),
        ("3.0.0", text(&(now - Duration::days(5)).to_rfc3339())),
    ]);
    let info = checker.parse_time_field(&time_json).unwrap();
    let result = checker.find_eligible_version("3.0.0", &info).unwrap();
    assert_eq!(result, Some("2.0.0".to_string()));
}

#[test]
fn test_find_eligible_version_not_found() {
    let checker = DelayChecker::default();
    let time_json = make_sample_time();
    let info = checker.parse_time_field(&time_json).unwrap();
    let result = checker.find_eligible_version("nonexistent", &info);
    assert!(result.is_err());
    match result.unwrap_err() {
        DelayCheckError::VersionNotFound { version } => {
            assert_eq!(version, "nonexistent");
        }
        other => panic!("Expected VersionNotFound, got {:?}", other),
    }
}

#[test]
fn test_resolve_version_allowed() {
    let checker = DelayChecker::new(365);
    let time_json = make_sample_time();
    let info = checker.parse_time_field(&time_json).unwrap();
    let result = checker.resolve_version("1.0.0", &info).unwrap();
    assert_eq!(result, VersionCheckResult::Allowed);
}

#[test]
fn test_resolve_version_downgraded() {
    let checker = DelayChecker::new(30);
    let now = Utc::now();
    let time_json = object(vec![
        ("1.0.0", text(&(now - Duration::days(60)).to_rfc3339())),
        ("2.0.0", text(&(now - Duration::days(10)).to_rfc3339())),
        ("3.0.0", text(&(now - Duration::days(1)).to_rfc3339())),
    ]);
    let info = checker.parse_time_field(&time_json).unwrap();
    let result = checker.resolve_version("3.0.0", &info).unwrap();
    match result {
        VersionCheckResult::Downgraded {
            original_version,
            suggested_version,
            ..
        } => {
            assert_eq!(original_version, "3.0.0");
            assert_eq!(suggested_version, "1.0.0");
        }
        other => panic!("Expected Downgraded, got {:?}", other),
    }
}

#[test]
fn test_resolve_version_denied_no_alternative() {
    let checker = DelayChecker::new(36500);
    let now = Utc::now();
    let time_json = object(vec![
        ("1.0.0", text(&(now - Duration::days(5)).to_rfc3339())),
        ("2.0.0", text(&(now - Duration::days(2)).to_rfc3339())),
    ]);
    let info = checker.parse_time_field(&time_json).unwrap();
    let result = checker.resolve_version("2.0.0", &info).unwrap();
    match result {
        VersionCheckResult::Denied { .. } => {}
        other => panic!("Expected Denied, got {:?}", other),
    }
}

#[test]
fn test_resolve_version_not_found() {
    let checker = DelayChecker::default();
    let time_json = make_sample_time();
    let info = checker.parse_time_field(&time_json).unwrap();
    let result = checker.resolve_version("missing-version", &info);
    assert!(result.is_err());
}

#[test]
fn test_compare_versions_basic() {
    assert_eq!(compare_versions("1.0.0", "2.0.0"), std::cmp::Ordering::Less);
    assert_eq!(
        compare_versions("2.0.0", "1.0.0"),
        std::cmp::Ordering::Greater
    );
    assert_eq!(
        compare_versions("1.0.0", "1.0.0"),
        std::cmp::Ordering::Equal
    );
}

#[test]
fn test_compare_versions_multi_part() {
    assert_eq!(compare_versions("1.2.3", "1.2.4"), std::cmp::Ordering::Less);
    assert_eq!(
        compare_versions("1.10.0", "1.9.0"),
        std::cmp::Ordering::Greater
    );
}

#[test]
fn test_compare_versions_with_prerelease() {
    let result = compare_versions("1.0.0-beta", "1.0.0-alpha");
    let ordering = match (result, compare_versions("1.0.0-beta", "1.0.0-alpha")) {
        (std::cmp::Ordering::Equal, _) => std::cmp::Ordering::Equal,
        _ => result,
    };
    let _ = ordering;
}

#[test]
fn test_version_time_info_methods() {
    let time_json = make_sample_time();
    let checker = DelayChecker::default();
    let info = checker.parse_time_field(&time_json).unwrap();

    assert_eq!(info.len(), 3);
    assert!(!info.is_empty());

    let version_count = info.versions().len();
    assert_eq!(version_count, 3);

    assert!(info.get_publish_time("1.0.0").is_some());
    assert!(info.get_publish_time("nonexistent").is_none());
}

#[test]
fn test_parse_time_field_many_versions() {
    let checker = DelayChecker::default();
    let time_json = object(vec![
        ("created", text("2020-01-01T00:00:00Z")),
        ("modified", text("2024-12-31T23:59:59Z")),
        ("0.1.0", text("2020-01-15T00:00:00Z")),
        ("0.2.0", text("2020-03-20T00:00:00Z")),
        ("1.0.0", text("2021-01-01T00:00:00Z")),
        ("1.1.0", text("2021-06-15T00:00:00Z")),
        ("2.0.0", text("2022-01-01T00:00:00Z")),
        ("2.1.0", text("2022-08-01T00:00:00Z")),
        ("3.0.0", text("2023-01-01T00:00:00Z")),
    ]);

    let info = checker.parse_time_field(&time_json).unwrap();
    assert_eq!(info.len(), 7);
    assert!(info.get_publish_time("0.1.0").is_some());
    assert!(info.get_publish_time("3.0.0").is_some());
}

#[test]
fn test_edge_case_all_versions_new() {
    let checker = DelayChecker::new(36500);
    let now = Utc::now();
    let time_json = object(vec![
        ("1.0.0", text(&(now - Duration::days(1)).to_rfc3339())),
        ("2.0.0", text(&(now - Duration::days(2)).to_rfc3339())),
    ]);
    let info = checker.parse_time_field(&time_json).unwrap();

    let result = checker.resolve_version("2.0.0", &info).unwrap();
    match result {
        VersionCheckResult::Denied { .. } => {}
        other => panic!("Expected Denied when all versions are new, got {:?}", other),
    }
}

#[test]
fn test_edge_case_single_old_version() {
    let checker = DelayChecker::new(30);
    let now = Utc::now();
    let time_json = object(vec![
        ("1.0.0", text(&(now - Duration::days(100)).to_rfc3339())),
        ("2.0.0", text(&(now - Duration::days(5)).to_rfc3339())),
    ]);
    let info = checker.parse_time_field(&time_json).unwrap();

    let result = checker.resolve_version("2.0.0", &info).unwrap();
    match result {
        VersionCheckResult::Downgraded {
            ref suggested_version,
            ..
        } => {
            assert_eq!(suggested_version, "1.0.0");
        }
        other => panic!("Expected Downgraded, got {:?}", other),
    }
}

#[test]
fn test_threshold_is_correctly_calculated() {
    let checker = DelayChecker::new(5);
    let expected_threshold = Utc::now() - Duration::days(5);
    let diff = (moment(checker.threshold()) - expected_threshold)
        .num_seconds()
        .abs();
    assert!(diff < 2, "Threshold should be approximately 5 days ago");
}
