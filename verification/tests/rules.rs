use delay_mirror::allowlist::{AllowlistConfig, AllowlistManager};
use delay_mirror::config::{Config, EnvVars};
use delay_mirror::delay_check::{
    compare_versions, is_older, newest_of, parse_datetime_flexible, DelayCheckError, DelayChecker,
    VersionCheckResult, VersionTimeInfo,
};
use delay_mirror::delay_logger::{DelayAction, DelayLogEntry, DelayLogger, PackageType};
use delay_mirror::json::Json;
use delay_mirror::timestamp::Timestamp;
use std::cmp::Ordering;

fn at(secs: i64) -> Timestamp {
    Timestamp { secs, nanos: 0 }
}

const DAY: i64 = 86_400;

fn times(entries: &[(&str, i64)]) -> VersionTimeInfo {
    VersionTimeInfo::from_times(
        &entries
            .iter()
            .map(|(version, day)| (version.to_string(), at(day * DAY)))
            .collect(),
    )
}

#[test]
fn the_threshold_lies_the_given_days_back() {
    let checker = DelayChecker::at(at(100 * DAY), 3);
    assert_eq!(checker.delay_days(), 3);
    assert_eq!(checker.threshold(), &at(97 * DAY));
    assert!(checker.is_version_allowed(&at(97 * DAY)));
    assert!(!checker.is_version_allowed(&Timestamp {
        secs: 97 * DAY,
        nanos: 1
    }));
}

#[test]
fn a_longer_delay_allows_no_more() {
    let short = DelayChecker::at(at(100 * DAY), 3);
    let long = DelayChecker::at(at(100 * DAY), 30);
    for day in [0, 69, 70, 71, 96, 97, 98, 100] {
        if long.is_version_allowed(&at(day * DAY)) {
            assert!(short.is_version_allowed(&at(day * DAY)));
        }
    }
}

#[test]
fn the_newest_old_version_stands_in() {
    let checker = DelayChecker::at(at(100 * DAY), 3);
    let info = times(&[("1.9.0", 96), ("1.10.0", 10), ("2.0.0", 99)]);
    assert_eq!(
        checker.find_eligible_version("2.0.0", &info).unwrap(),
        Some("1.10.0".to_string())
    );
    assert_eq!(
        checker.resolve_version("2.0.0", &info).unwrap(),
        VersionCheckResult::Downgraded {
            original_version: "2.0.0".to_string(),
            suggested_version: "1.10.0".to_string(),
            original_time: at(99 * DAY),
            suggested_time: at(10 * DAY),
        }
    );
    assert_eq!(checker.eligible_versions(&info), ["1.10.0", "1.9.0"]);
}

#[test]
fn without_an_old_version_a_young_one_is_denied() {
    let checker = DelayChecker::at(at(100 * DAY), 3);
    let info = times(&[("1.0.0", 98), ("2.0.0", 99)]);
    assert_eq!(
        checker.resolve_version("2.0.0", &info).unwrap(),
        VersionCheckResult::Denied {
            publish_time: at(99 * DAY)
        }
    );
    assert_eq!(checker.find_eligible_version("2.0.0", &info).unwrap(), None);
    assert_eq!(
        checker.check_version("1.0.0", &info).unwrap(),
        VersionCheckResult::Denied {
            publish_time: at(98 * DAY)
        }
    );
}

#[test]
fn the_order_of_versions() {
    assert_eq!(compare_versions("1.10.0", "1.9.0"), Ordering::Greater);
    assert_eq!(compare_versions("1.0", "1.0.0"), Ordering::Less);
    assert_eq!(compare_versions("1.0.0-beta", "1.0"), Ordering::Greater);
    assert_eq!(compare_versions("x", ""), Ordering::Equal);
    assert_eq!(compare_versions("v1.9.1", "1.9.1"), Ordering::Equal);
    assert_eq!(compare_versions("1.9.1+meta", "1.9.1"), Ordering::Equal);
    assert!(is_older("1.9.0", "1.10.0"));
    assert!(!is_older("1.10.0", "1.10.0"));
}

#[test]
fn a_pre_release_comes_before_its_release() {
    assert_eq!(compare_versions("2.0.0-b.1", "2.0.0"), Ordering::Less);
    assert_eq!(compare_versions("2.0.0", "2.0.0-b.1"), Ordering::Greater);
    assert_eq!(compare_versions("2.0.0-b.1", "1.9.9"), Ordering::Greater);
    let list: Vec<String> = ["1.9.0", "2.0.0", "2.0.0-rc.1"]
        .iter()
        .map(|v| v.to_string())
        .collect();
    assert_eq!(newest_of(&list), Some("2.0.0".to_string()));
}

#[test]
fn the_order_of_pre_releases() {
    let names = [
        "1.0.0-alpha",
        "1.0.0-alpha.1",
        "1.0.0-alpha.beta",
        "1.0.0-beta",
        "1.0.0-beta.2",
        "1.0.0-beta.11",
        "1.0.0-rc.1",
        "1.0.0",
    ];
    for (i, a) in names.iter().enumerate() {
        for (j, b) in names.iter().enumerate() {
            assert_eq!(compare_versions(a, b), i.cmp(&j), "{} and {}", a, b);
        }
    }
}

#[test]
fn the_last_of_equally_new_versions_is_taken() {
    let list: Vec<String> = ["1.0", "2.0", "2.x.0", "1.5"]
        .iter()
        .map(|v| v.to_string())
        .collect();
    assert_eq!(newest_of(&list), Some("2.x.0".to_string()));
    assert_eq!(newest_of(&Vec::new()), None);
}

#[test]
fn times_are_read_in_four_forms() {
    for s in [
        "2024-01-15T10:30:00Z",
        "2024-01-15T18:30:00+08:00",
        "2024-01-15T10:30:00",
        "2024-01-15T10:30:00.0",
        "2024-01-15 10:30:00",
    ] {
        assert_eq!(parse_datetime_flexible(s).unwrap(), at(1_705_314_600), "{}", s);
    }
    assert_eq!(
        parse_datetime_flexible("2024-01-15T10:30:00.123456").unwrap(),
        Timestamp {
            secs: 1_705_314_600,
            nanos: 123_456_000
        }
    );
    assert_eq!(
        parse_datetime_flexible("2024-01-15").unwrap_err().to_string(),
        "Invalid time field format: unable to parse datetime: 2024-01-15"
    );
}

#[test]
fn time_fields_that_cannot_be_read() {
    let checker = DelayChecker::at(at(0), 1);
    let error = |json: Json| checker.parse_time_field(&json).unwrap_err().to_string();
    assert_eq!(
        error(Json::Null),
        "Invalid time field format: time field is not a JSON object"
    );
    assert_eq!(error(Json::object()), "Missing time field in metadata");
    assert_eq!(
        error(Json::object().put("created", Json::Null)),
        "Missing time field in metadata"
    );
    assert_eq!(
        error(Json::object().put("1.0.0", Json::Null)),
        "Invalid time field format: value for version '1.0.0' is not a string"
    );
    assert_eq!(
        error(Json::object().put("1.0.0", Json::string("soon"))),
        "Invalid time field format: invalid ISO 8601 timestamp for version '1.0.0': soon"
    );
}

#[test]
fn errors_of_the_delay_check_in_words() {
    assert_eq!(
        DelayCheckError::NoEligibleVersions.to_string(),
        "No eligible versions available after delay check"
    );
    assert_eq!(
        DelayChecker::with_delay_days(-5).unwrap_err().to_string(),
        "Invalid DELAY_DAYS value: -5"
    );
    let info = times(&[("1.0.0", 1)]);
    assert_eq!(
        DelayChecker::at(at(0), 1)
            .resolve_version("9", &info)
            .unwrap_err()
            .to_string(),
        "Version '9' not found in metadata"
    );
}

#[test]
fn versions_are_listed_in_the_order_of_their_names() {
    let info = times(&[("2.0.0", 2), ("1.9.0", 1), ("1.10.0", 3)]);
    assert_eq!(info.versions(), ["1.10.0", "1.9.0", "2.0.0"]);
    assert_eq!(info.len(), 3);
    assert!(!info.is_empty());
    assert_eq!(info.get_publish_time("1.9.0"), Some(&at(DAY)));
    assert_eq!(info.get_publish_time("3"), None);
}

fn manager(entries: &[&str]) -> AllowlistManager {
    AllowlistManager::from_config(AllowlistConfig {
        npm: Some(entries.iter().map(|e| e.to_string()).collect()),
        gomod: None,
        pypi: None,
    })
}

#[test]
fn a_star_stands_for_any_text() {
    let allowed = |pattern: &str, name: &str| manager(&[pattern]).is_allowed(&PackageType::Npm, name);
    assert!(allowed("*", ""));
    assert!(allowed("*", "anything"));
    assert!(allowed("@types/*", "@types/node"));
    assert!(!allowed("@types/*", "@type/node"));
    assert!(allowed("a*b*c", "a-b-b-c"));
    assert!(!allowed("a*b*c", "a-c"));
    assert!(!allowed("a.c*", "abcd"));
    assert!(allowed("a+b*", "a+b"));
}

#[test]
fn without_stars_only_the_name_itself_is_allowed() {
    assert!(manager(&["lodash"]).is_allowed(&PackageType::Npm, "lodash"));
    assert!(!manager(&["lodash"]).is_allowed(&PackageType::Npm, "lodash2"));
    assert!(!manager(&["lod.sh"]).is_allowed(&PackageType::Npm, "lodash"));
}

#[test]
fn empty_lists_allow_everything() {
    let empty = manager(&[]);
    assert!(!empty.is_enabled());
    assert!(empty.is_allowed(&PackageType::Npm, "x"));
    assert_eq!(empty.config().npm, Some(Vec::new()));
}

#[test]
fn the_allowlist_is_on_where_the_variable_is_set() {
    assert!(!AllowlistManager::from_env(None).is_enabled());
    let unreadable = AllowlistManager::from_env(Some(None));
    assert!(unreadable.is_enabled());
    assert!(unreadable.is_allowed(&PackageType::PyPI, "x"));
    let set = AllowlistManager::from_env(Some(Some(AllowlistConfig {
        npm: Some(Vec::new()),
        gomod: None,
        pypi: None,
    })));
    assert!(set.is_enabled());
    assert!(!set.is_allowed(&PackageType::Npm, "x"));
}

#[test]
fn a_configuration_from_its_variables() {
    let none = || EnvVars {
        delay_days: None,
        npm_registry: None,
        npm_download_registry: None,
        gomod_registry: None,
        gomod_download_registry: None,
        pypi_registry: None,
        pypi_simple_index: None,
        pypi_json_api_base: None,
        pypi_download_base: None,
        pypi_download_mirror: None,
        allowlist_enabled: None,
        debug_mode: None,
        pypi_filter_mode: None,
    };
    let config = Config::from_vars(EnvVars {
        delay_days: Some("+7".to_string()),
        pypi_registry: Some("https://mirror/simple/".to_string()),
        debug_mode: Some("1".to_string()),
        pypi_filter_mode: Some(String::new()),
        ..none()
    });
    assert_eq!(config.delay_days, 7);
    assert_eq!(config.pypi_simple_index, "https://mirror/simple/");
    assert!(config.debug_mode);
    assert_eq!(config.pypi_filter_mode, None);
    let config = Config::from_vars(EnvVars {
        delay_days: Some("seven".to_string()),
        allowlist_enabled: Some("yes".to_string()),
        ..none()
    });
    assert_eq!(config.delay_days, 3);
    assert!(!config.allowlist_enabled);
}

#[test]
fn slashes_at_the_end_of_a_registry_do_not_count() {
    let mut config = Config::default();
    config.gomod_registry = "https://proxy//".to_string();
    assert_eq!(
        config.gomod_meta_url("m", "/@v/list"),
        "https://proxy/m/@v/list"
    );
    config.gomod_registry = "https://proxy".to_string();
    assert_eq!(
        config.gomod_meta_url("m", "/@v/list"),
        "https://proxy/m/@v/list"
    );
}

#[test]
fn a_line_of_the_log_as_json() {
    let entry = DelayLogEntry::at(
        Timestamp {
            secs: 1_718_452_800,
            nanos: 0,
        },
        PackageType::Npm,
        "lodash".to_string(),
        "4.18.0".to_string(),
        Some("4.17.21".to_string()),
        DelayAction::Downgraded,
        "Version too recent, auto-downgraded for security".to_string(),
        None,
    );
    let json = entry.to_json();
    assert_eq!(json.get_str("timestamp"), Some("2024-06-15T12:00:00Z"));
    assert_eq!(json.get_str("event"), Some("version_check"));
    assert_eq!(json.get_str("package_type"), Some("npm"));
    assert_eq!(json.get_str("package"), Some("lodash"));
    assert_eq!(json.get_str("actual_version"), Some("4.17.21"));
    assert_eq!(json.get_str("action"), Some("downgraded"));
    assert_eq!(json.get("client_ip"), Some(&Json::Null));
    assert_eq!(entry.json_at("now").get_str("timestamp"), Some("now"));
    let entry = DelayLogger::new().log_downgraded(PackageType::PyPI, "p", "2", "1", "r", Some("ip"));
    assert_eq!(entry.actual_version, Some("1".to_string()));
    assert_eq!(entry.client_ip, Some("ip".to_string()));
    assert_eq!(entry.action, DelayAction::Downgraded);
}

#[test]
fn what_is_said_of_the_package_is_no_version() {
    let field = Json::object()
        .put("created", Json::string("2020-01-01T00:00:00Z"))
        .put("modified", Json::string("2024-01-15T10:30:00Z"))
        .put("1.0.0", Json::string("2024-01-15T10:30:00Z"));
    let info = DelayChecker::at(at(0), 1).parse_time_field(&field).unwrap();
    assert_eq!(info.versions(), ["1.0.0"]);
    assert_eq!(info.get_publish_time("1.0.0"), Some(&at(1_705_314_600)));
    assert_eq!(info.get_publish_time("created"), None);
    assert_eq!(info.get_publish_time("modified"), None);
}
