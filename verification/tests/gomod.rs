use chrono::{DateTime, Datelike, Timelike, Utc};
use delay_mirror::delay_check::VersionCheckResult;
use delay_mirror::gomod::{
    escape_module_path, extract_pseudo_version_time, extract_reject_time, not_found_json,
    parse_version_time, upstream_error_json, GomodEndpoint,
};
use delay_mirror::json::Json;
use delay_mirror::text;
use delay_mirror::timestamp::Timestamp;
use serde_json::Value;

/// The value that serde_json holds for the same JSON.
fn shown(json: &Json) -> Value {
    match json {
        Json::Null => Value::Null,
        Json::Bool(b) => Value::Bool(*b),
        Json::Number(n) => serde_json::from_str(n).unwrap(),
        Json::Str(s) => Value::String(s.clone()),
        Json::Array(items) => Value::Array(items.iter().map(shown).collect()),
        Json::Object(members) => Value::Object(
            members
                .iter()
                .map(|(name, value)| (name.clone(), shown(value)))
                .collect(),
        ),
    }
}

/// The same moment in chrono's form.
fn moment(t: &Timestamp) -> DateTime<Utc> {
    DateTime::from_timestamp(t.secs, t.nanos).unwrap()
}

/// The same moment in the library's form.
fn stamp(t: &DateTime<Utc>) -> Timestamp {
    Timestamp {
        secs: t.timestamp(),
        nanos: t.timestamp_subsec_nanos(),
    }
}

#[test]
fn test_parse_version_time_valid() {
    let result = parse_version_time("2024-01-01T00:00:00Z");
    assert!(result.is_ok());
    let dt = moment(&result.unwrap());
    assert_eq!(dt.year(), 2024);
    assert_eq!(dt.month(), 1);
    assert_eq!(dt.day(), 1);
}

#[test]
fn test_parse_version_time_invalid() {
    let result = parse_version_time("not-a-timestamp");
    assert!(result.is_err());
}

#[test]
fn test_parse_version_time_rfc3339() {
    let result = parse_version_time("2024-06-15T10:30:45+08:00");
    assert!(result.is_ok());
}

#[test]
fn test_escape_module_path_basic() {
    assert_eq!(
        escape_module_path("github.com/gin-gonic/gin"),
        "github.com/gin-gonic/gin"
    );
}

#[test]
fn test_escape_module_path_uppercase() {
    assert_eq!(
        escape_module_path("github.com/Google/uuid"),
        "github.com/!google/uuid"
    );
}

#[test]
fn test_escape_module_path_multiple_uppercase() {
    assert_eq!(
        escape_module_path("github.com/MyOrg/MyRepo"),
        "github.com/!myorg/!myrepo"
    );
}

#[test]
fn test_escape_module_path_empty() {
    let result = escape_module_path("");
    assert!(result.is_empty());
}

#[test]
fn test_escape_module_path_all_uppercase() {
    assert_eq!(escape_module_path("GOOGLE"), "!g!oo!g!l!e");
}

#[test]
fn test_escape_module_path_mixed_case() {
    assert_eq!(escape_module_path("Gin-Gonic"), "!gin-!gonic");
}

#[test]
fn test_escape_module_path_special_chars() {
    assert_eq!(
        escape_module_path("github.com/user-name/repo_name"),
        "github.com/user-name/repo_name"
    );
}

#[test]
fn test_escape_module_path_numbers() {
    assert_eq!(
        escape_module_path("github.com/v2ray/v2ray-core"),
        "github.com/v2ray/v2ray-core"
    );
}

#[test]
fn test_escape_module_path_single_char() {
    assert_eq!(escape_module_path("a"), "a");
    assert_eq!(escape_module_path("A"), "!a");
}

#[test]
fn test_escape_module_path_single_lowercase() {
    assert_eq!(escape_module_path("g"), "g");
}

#[test]
fn test_escape_module_path_consecutive_uppercase() {
    assert_eq!(
        escape_module_path("github.com/AABBCC/Test"),
        "github.com/!aa!bb!cc/!test"
    );
}

#[test]
fn test_escape_module_path_with_numbers_and_uppercase() {
    assert_eq!(
        escape_module_path("github.com/V2Ray/Core"),
        "github.com/!v2!ray/!core"
    );
}

#[test]
fn test_escape_module_path_preserves_hyphens() {
    assert_eq!(
        escape_module_path("github.com/my-org/my-repo"),
        "github.com/my-org/my-repo"
    );
}

#[test]
fn test_escape_module_path_preserves_underscores() {
    assert_eq!(
        escape_module_path("github.com/my_org/my_repo"),
        "github.com/my_org/my_repo"
    );
}

#[test]
fn test_escape_module_path_non_empty_output() {
    let module = "some/module/path";
    assert!(!escape_module_path(module).is_empty());
}

#[test]
fn test_escape_module_path_idempotent_for_lowercase() {
    let input = "github.com/user/repo";
    let first = escape_module_path(input);
    let second = escape_module_path(&first);
    assert_eq!(first, second);
}

#[test]
fn test_extract_reject_time_denied() {
    let time: DateTime<Utc> = "2024-06-15T00:00:00Z".parse().unwrap();
    let time = stamp(&time);
    let result = VersionCheckResult::Denied { publish_time: time };
    let extracted = extract_reject_time(&result).unwrap();
    assert_eq!(*extracted, time);
}

#[test]
fn test_extract_reject_time_downgraded() {
    let orig_time: DateTime<Utc> = "2024-06-15T00:00:00Z".parse().unwrap();
    let orig_time = stamp(&orig_time);
    let sug_time: DateTime<Utc> = "2024-01-01T00:00:00Z".parse().unwrap();
    let sug_time = stamp(&sug_time);
    let result = VersionCheckResult::Downgraded {
        original_version: "v2.0.0".to_string(),
        suggested_version: "v1.0.0".to_string(),
        original_time: orig_time,
        suggested_time: sug_time,
    };
    let extracted = extract_reject_time(&result).unwrap();
    assert_eq!(*extracted, orig_time);
}

#[test]
fn test_extract_reject_time_allowed() {
    let result = VersionCheckResult::Allowed;
    assert!(extract_reject_time(&result).is_none());
}

#[test]
fn test_parse_various_timestamp_formats() {
    let valid_timestamps = vec![
        "2024-01-01T00:00:00Z",
        "2024-06-15T10:30:00+00:00",
        "2024-12-31T23:59:59-05:00",
    ];

    for ts in valid_timestamps {
        assert!(
            parse_version_time(ts).is_ok(),
            "Should parse timestamp: {}",
            ts
        );
    }
}

#[test]
fn test_version_zip_trim() {
    let version = "v1.0.0.zip";
    let cleaned = text::trim_end_str(version, ".zip");
    assert_eq!(cleaned, "v1.0.0");

    let version_no_ext = "v1.0.0";
    let cleaned_no_ext = text::trim_end_str(version_no_ext, ".zip");
    assert_eq!(cleaned_no_ext, "v1.0.0");
}

#[test]
fn test_version_info_trim() {
    let version = "v1.0.0.info";
    let cleaned = text::trim_end_str(version, ".info");
    assert_eq!(cleaned, "v1.0.0");
}

#[test]
fn test_version_mod_trim() {
    let version = "v1.0.0.mod";
    let cleaned = text::trim_end_str(version, ".mod");
    assert_eq!(cleaned, "v1.0.0");
}

#[test]
fn test_extract_pseudo_version_time_valid() {
    let cases = vec![
        ("v0.0.0-20240101120000-abc123def456", 2024, 1, 1, 12, 0, 0),
        ("v0.0.0-20230102150405-a1b2c3d4e5f6", 2023, 1, 2, 15, 4, 5),
        ("v1.2.3-0.20240101120000-abc123def456", 2024, 1, 1, 12, 0, 0),
        (
            "v2.0.0-20251231235959-abcdef123456",
            2025,
            12,
            31,
            23,
            59,
            59,
        ),
    ];
    for (version, y, mo, d, h, mi, s) in cases {
        let dt = extract_pseudo_version_time(version)
            .unwrap_or_else(|| panic!("Should parse: {}", version));
        let dt = moment(&dt);
        assert_eq!(dt.year(), y, "year mismatch for {}", version);
        assert_eq!(dt.month() as i32, mo, "month mismatch for {}", version);
        assert_eq!(dt.day(), d, "day mismatch for {}", version);
        assert_eq!(dt.hour(), h, "hour mismatch for {}", version);
        assert_eq!(dt.minute(), mi, "minute mismatch for {}", version);
        assert_eq!(dt.second(), s, "second mismatch for {}", version);
    }
}

#[test]
fn test_extract_pseudo_version_time_invalid_formats() {
    let invalid = vec!["v1.0.0", "v1.0.0-beta", "v1.0.0-beta.1", "v1.0.0+build"];
    for version in invalid {
        assert!(
            extract_pseudo_version_time(version).is_none(),
            "Should return None for: {}",
            version
        );
    }
}

#[test]
fn test_extract_pseudo_version_time_edge_cases() {
    assert!(
        extract_pseudo_version_time("v0.0.0-20240101-abc123").is_none(),
        "Short timestamp (8 digits) should be None"
    );
    assert!(
        extract_pseudo_version_time("v0.0.0-2024010112000-abc123").is_none(),
        "13-digit timestamp should be None"
    );
    assert!(
        extract_pseudo_version_time("v0.0.0-202401011200000-abc123").is_none(),
        "15-digit timestamp should be None"
    );
    assert!(
        extract_pseudo_version_time("v0.0.0-2024a101120000-abc123").is_none(),
        "Timestamp with letter should be None"
    );
    assert!(
        extract_pseudo_version_time("v0.0.0-20240101120000").is_none(),
        "Only 2 parts after split should be None"
    );
}

#[test]
fn test_gomod_endpoint_extension() {
    assert_eq!(GomodEndpoint::List.extension(), "list");
    assert_eq!(GomodEndpoint::Latest.extension(), "latest");
    assert_eq!(GomodEndpoint::Info.extension(), ".info");
    assert_eq!(GomodEndpoint::Mod.extension(), ".mod");
    assert_eq!(GomodEndpoint::Zip.extension(), ".zip");
}

#[test]
fn test_gomod_endpoint_content_type() {
    assert_eq!(
        GomodEndpoint::List.content_type(),
        "text/plain; charset=utf-8"
    );
    assert_eq!(GomodEndpoint::Latest.content_type(), "application/json");
    assert_eq!(GomodEndpoint::Info.content_type(), "application/json");
    assert_eq!(
        GomodEndpoint::Mod.content_type(),
        "text/plain; charset=utf-8"
    );
    assert_eq!(GomodEndpoint::Zip.content_type(), "application/octet-stream");
}

#[test]
fn test_gomod_endpoint_needs_delay_check() {
    assert!(!GomodEndpoint::List.needs_delay_check());
    assert!(GomodEndpoint::Latest.needs_delay_check());
    assert!(GomodEndpoint::Info.needs_delay_check());
    assert!(GomodEndpoint::Mod.needs_delay_check());
    assert!(GomodEndpoint::Zip.needs_delay_check());
}

#[test]
fn test_gomod_endpoint_should_stream() {
    assert!(!GomodEndpoint::List.should_stream());
    assert!(!GomodEndpoint::Latest.should_stream());
    assert!(!GomodEndpoint::Info.should_stream());
    assert!(!GomodEndpoint::Mod.should_stream());
    assert!(GomodEndpoint::Zip.should_stream());
}

#[test]
fn test_gomod_endpoint_uses_download_registry() {
    assert!(!GomodEndpoint::List.uses_download_registry());
    assert!(!GomodEndpoint::Latest.uses_download_registry());
    assert!(!GomodEndpoint::Info.uses_download_registry());
    assert!(!GomodEndpoint::Mod.uses_download_registry());
    assert!(GomodEndpoint::Zip.uses_download_registry());
}

#[test]
fn test_escape_module_path_preserves_digits() {
    assert_eq!(
        escape_module_path("github.com/v2ray/v2ray-core"),
        "github.com/v2ray/v2ray-core"
    );
}

#[test]
fn test_escape_module_path_leading_uppercase() {
    assert_eq!(escape_module_path("A"), "!a");
    assert_eq!(escape_module_path("AB"), "!a!b");
}

#[test]
fn test_escape_module_path_trailing_uppercase() {
    assert_eq!(escape_module_path("testA"), "test!a");
}

#[test]
fn test_not_found_json_format() {
    let parsed = shown(&not_found_json("github.com/foo/bar", "v1.0.0"));
    assert_eq!(parsed["error"], "Version not found");
    assert_eq!(parsed["module"], "github.com/foo/bar");
    assert_eq!(parsed["version"], "v1.0.0");
}

#[test]
fn test_upstream_error_json_format() {
    let parsed = shown(&upstream_error_json(502));
    assert_eq!(parsed["error"], "Upstream registry error");
    assert_eq!(parsed["status"], 502);
}
