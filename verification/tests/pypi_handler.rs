use chrono::{DateTime, Datelike, Duration, Utc};
use delay_mirror::delay_check::{DelayCheckError, DelayChecker, VersionCheckResult};
use delay_mirror::json::Json;
use delay_mirror::pypi_handler::{
    build_sdist_filename, build_version_time_info_from_releases, find_download_url_for_version,
    normalize_package_name, parse_package_filename, parse_upload_time,
};
use delay_mirror::timestamp::Timestamp;
use serde_json::Value;

/// A JSON string.
fn text(s: &str) -> Json {
    Json::string(s)
}

/// A JSON object.
fn object(members: Vec<(&str, Json)>) -> Json {
    let mut result = Json::object();
    for (name, value) in members {
        result = result.put(name, value);
    }
    result
}

/// The value that serde_json holds for the same JSON.
fn shown(json: &Json) -> Value {
    match json {
        Json::Null => Value::Null,
        Json::Bool(b) => Value::Bool(*b),
        Json::Number(n) => serde_json::from_str(n).unwrap(),
        Json::Str(s) => Value::String(s.clone()),
        Json::Array(items) => Value::Array(items.iter().map(shown).collect()),
        Json::Object(members) => Value::Object(
            members
                .iter()
                .map(|(name, value)| (name.clone(), shown(value)))
                .collect(),
        ),
    }
}

/// The same moment in chrono's form.
fn moment(t: &Timestamp) -> DateTime<Utc> {
    DateTime::from_timestamp(t.secs, t.nanos).unwrap()
}

#[test]
fn pypi_handler_test_normalize_package_name_basic() {
    assert_eq!(normalize_package_name("Django"), "django");
    assert_eq!(normalize_package_name("DJA_NGO"), "dja-ngo");
    assert_eq!(normalize_package_name("numpy-1.0"), "numpy-1-0");
    assert_eq!(normalize_package_name("Pillow"), "pillow");
    assert_eq!(normalize_package_name("some_package"), "some-package");
    assert_eq!(normalize_package_name("some.package"), "some-package");
    assert_eq!(normalize_package_name("some-package"), "some-package");
}

#[test]
fn pypi_handler_test_normalize_package_name_with_dots() {
    assert_eq!(
        normalize_package_name("django-rest-framework"),
        "django-rest-framework"
    );
}

#[test]
fn pypi_handler_test_normalize_package_name_with_underscores() {
    assert_eq!(
        normalize_package_name("django_rest_framework"),
        "django-rest-framework"
    );
}

#[test]
fn pypi_handler_test_normalize_package_name_mixed_separators() {
    assert_eq!(
        normalize_package_name("Django_Rest-Framework.v2"),
        "django-rest-framework-v2"
    );
}

#[test]
fn pypi_handler_test_parse_wheel_filename_basic() {
    assert_eq!(
        parse_package_filename("lodash-4.17.21-py3-none-any.whl"),
        Some(("lodash".to_string(), "4.17.21".to_string()))
    );
    assert_eq!(
        parse_package_filename("numpy-1.21.0-cp39-cp39-win_amd64.whl"),
        Some(("numpy".to_string(), "1.21.0".to_string()))
    );
    assert_eq!(
        parse_package_filename("package-1.0-1-py3-none-any.whl"),
        Some(("package".to_string(), "1.0".to_string()))
    );
}

#[test]
fn pypi_handler_test_parse_sdist_filename_basic() {
    assert_eq!(
        parse_package_filename("lodash-4.17.21.tar.gz"),
        Some(("lodash".to_string(), "4.17.21".to_string()))
    );
    assert_eq!(
        parse_package_filename("numpy-1.21.0.tar.gz"),
        Some(("numpy".to_string(), "1.21.0".to_string()))
    );
    assert_eq!(
        parse_package_filename("my-package-2.0.0.tar.gz"),
        Some(("my-package".to_string(), "2.0.0".to_string()))
    );
}

#[test]
fn pypi_handler_test_parse_invalid_filenames() {
    assert_eq!(parse_package_filename("invalid.txt"), None);
    assert_eq!(parse_package_filename("no-extension"), None);
}

#[test]
fn pypi_handler_test_parse_wheel_with_build_tag() {
    assert_eq!(
        parse_package_filename("package-1.0.0+local-py3-none-any.whl"),
        Some(("package".to_string(), "1.0.0+local".to_string()))
    );
}

#[test]
fn pypi_handler_test_parse_upload_time_valid_rfc3339() {
    let result = parse_upload_time("2024-01-15T10:30:00Z");
    assert!(result.is_ok());
    let dt = moment(&result.unwrap());
    assert_eq!(dt.year(), 2024);
    assert_eq!(dt.month(), 1);
    assert_eq!(dt.day(), 15);
}

#[test]
fn pypi_handler_test_parse_upload_time_valid_with_offset() {
    let result = parse_upload_time("2024-06-20T14:45:00+08:00");
    assert!(result.is_ok());
}

#[test]
fn pypi_handler_test_parse_upload_time_invalid() {
    let result = parse_upload_time("not-a-date");
    assert!(result.is_err());
    match result.unwrap_err() {
        DelayCheckError::InvalidTimeFormat(_) => {}
        other => panic!("Expected InvalidTimeFormat, got {:?}", other),
    }
}

#[test]
fn pypi_handler_test_build_version_time_info_from_releases_valid() {
    let releases = object(vec![
        ("1.0.0", Json::Array(vec![object(vec![
            ("upload_time", text("2024-01-01T00:00:00Z")),
            ("filename", text("pkg-1.0.0.tar.gz")),
            ("url", text("https://example.com/pkg-1.0.0.tar.gz")),
        ])])),
        ("2.0.0", Json::Array(vec![object(vec![
            ("upload_time", text("2024-03-15T10:30:00Z")),
            ("filename", text("pkg-2.0.0.tar.gz")),
            ("url", text("https://example.com/pkg-2.0.0.tar.gz")),
        ])])),
        ("3.0.0", Json::Array(vec![object(vec![
            ("upload_time", text("2024-06-01T12:00:00Z")),
            ("filename", text("pkg-3.0.0-py3-none-any.whl")),
            ("url", text("https://example.com/pkg-3.0.0-py3-none-any.whl")),
        ])])),
    ]);

    let result = build_version_time_info_from_releases(&releases);
    assert!(result.is_ok());
    let time_value = shown(&result.unwrap());
    let time_obj = time_value.as_object().unwrap();
    assert_eq!(time_obj.len(), 3);
    assert_eq!(
        time_obj.get("1.0.0").unwrap().as_str().unwrap(),
        "2024-01-01T00:00:00Z"
    );
    assert_eq!(
        time_obj.get("2.0.0").unwrap().as_str().unwrap(),
        "2024-03-15T10:30:00Z"
    );
    assert_eq!(
        time_obj.get("3.0.0").unwrap().as_str().unwrap(),
        "2024-06-01T12:00:00Z"
    );
}

#[test]
fn pypi_handler_test_build_version_time_info_from_releases_empty_releases() {
    let releases = Json::object();
    let result = build_version_time_info_from_releases(&releases);
    assert!(result.is_err());
    match result.unwrap_err() {
        DelayCheckError::MissingTimeField => {}
        other => panic!("Expected MissingTimeField, got {:?}", other),
    }
}

#[test]
fn pypi_handler_test_build_version_time_info_from_releases_uses_first_file() {
    let releases = object(vec![
        ("1.0.0", Json::Array(vec![object(vec![
            ("upload_time", text("2024-01-01T00:00:00Z")),
            ("filename", text("pkg-1.0.0.tar.gz")),
            ]), object(vec![
                ("upload_time", text("2024-01-02T00:00:00Z")),
                ("filename", text("pkg-1.0.0-py3-none-any.whl")),
        ])])),
    ]);
    let result = shown(&build_version_time_info_from_releases(&releases).unwrap());
    let time_obj = result.as_object().unwrap();
    assert_eq!(
        time_obj.get("1.0.0").unwrap().as_str().unwrap(),
        "2024-01-01T00:00:00Z"
    );
}

#[test]
fn pypi_handler_test_find_download_url_for_version_exact_match() {
    let releases = object(vec![
        ("1.0.0", Json::Array(vec![object(vec![
            ("filename", text("pkg-1.0.0.tar.gz")),
            ("url", text("https://files.pythonhosted.org/packages/pkg-1.0.0.tar.gz")),
            ]), object(vec![
                ("filename", text("pkg-1.0.0-py3-none-any.whl")),
                ("url", text("https://files.pythonhosted.org/packages/pkg-1.0.0-py3-none-any.whl")),
        ])])),
    ]);
    let result = find_download_url_for_version(&releases, "1.0.0", "pkg-1.0.0.tar.gz");
    assert_eq!(
        result,
        Some("https://files.pythonhosted.org/packages/pkg-1.0.0.tar.gz".to_string())
    );
}

#[test]
fn pypi_handler_test_find_download_url_for_version_fallback_to_first() {
    let releases = object(vec![
        ("1.0.0", Json::Array(vec![object(vec![
            ("filename", text("pkg-1.0.0.tar.gz")),
            ("url", text("https://files.pythonhosted.org/packages/pkg-1.0.0.tar.gz")),
        ])])),
    ]);
    let result = find_download_url_for_version(&releases, "1.0.0", "nonexistent-file.whl");
    assert_eq!(
        result,
        Some("https://files.pythonhosted.org/packages/pkg-1.0.0.tar.gz".to_string())
    );
}

#[test]
fn pypi_handler_test_find_download_url_for_version_not_found() {
    let releases = object(vec![
        ("1.0.0", Json::Array(Vec::new())),
    ]);
    let result = find_download_url_for_version(&releases, "1.0.0", "any-file.tar.gz");
    assert_eq!(result, None);
}

#[test]
fn pypi_handler_test_build_sdist_filename() {
    assert_eq!(
        build_sdist_filename("requests", "2.28.0"),
        "requests-2.28.0.tar.gz"
    );
    assert_eq!(
        build_sdist_filename("my-package", "1.0.0"),
        "my-package-1.0.0.tar.gz"
    );
}

#[test]
fn pypi_handler_test_end_to_delay_check_with_pypi_releases_format() {
    let now = Utc::now();
    let releases = object(vec![
        ("1.0.0", Json::Array(vec![object(vec![
            ("upload_time", text(&(now - Duration::days(100)).to_rfc3339())),
            ("filename", text("pkg-1.0.0.tar.gz")),
            ("url", text("https://example.com/1.tar.gz")),
        ])])),
        ("2.0.0", Json::Array(vec![object(vec![
            ("upload_time", text(&(now - Duration::days(50)).to_rfc3339())),
            ("filename", text("pkg-2.0.0.tar.gz")),
            ("url", text("https://example.com/2.tar.gz")),
        ])])),
        ("3.0.0", Json::Array(vec![object(vec![
            ("upload_time", text(&(now - Duration::days(1)).to_rfc3339())),
            ("filename", text("pkg-3.0.0.tar.gz")),
            ("url", text("https://example.com/3.tar.gz")),
        ])])),
    ]);

    let time_value = build_version_time_info_from_releases(&releases).unwrap();
    let checker = DelayChecker::new(7);
    let time_info = checker.parse_time_field(&time_value).unwrap();

    let result = checker.resolve_version("3.0.0", &time_info).unwrap();
    match result {
        VersionCheckResult::Downgraded {
            ref suggested_version,
            ..
        } => {
            assert_eq!(suggested_version, "2.0.0");
        }
        other => panic!("Expected Downgraded, got {:?}", other),
    }

    let result_old = checker.resolve_version("1.0.0", &time_info).unwrap();
    assert_eq!(result_old, VersionCheckResult::Allowed);
}

#[test]
fn pypi_handler_test_all_versions_recent_in_pypi_format() {
    let now = Utc::now();
    let releases = object(vec![
        ("1.0.0", Json::Array(vec![object(vec![
            ("upload_time", text(&(now - Duration::days(2)).to_rfc3339())),
            ("filename", text("pkg-1.0.0.tar.gz")),
        ])])),
        ("2.0.0", Json::Array(vec![object(vec![
            ("upload_time", text(&(now - Duration::days(1)).to_rfc3339())),
            ("filename", text("pkg-2.0.0.tar.gz")),
        ])])),
    ]);

    let time_value = build_version_time_info_from_releases(&releases).unwrap();
    let checker = DelayChecker::new(30);
    let time_info = checker.parse_time_field(&time_value).unwrap();

    let result = checker.resolve_version("2.0.0", &time_info).unwrap();
    match result {
        VersionCheckResult::Denied { .. } => {}
        other => panic!(
            "Expected Denied when all versions are recent, got {:?}",
            other
        ),
    }
}

#[test]
fn pypi_handler_test_extract_package_info_various_formats() {
    let test_cases = vec![
        ("Django-4.2.5-py3-none-any.whl", "Django", "4.2.5"),
        ("numpy-1.24.3-cp310-cp310-manylinux.whl", "numpy", "1.24.3"),
        ("Pillow-10.0.0.tar.gz", "Pillow", "10.0.0"),
        ("my_package-0.1.0.tar.gz", "my_package", "0.1.0"),
    ];

    for (filename, expected_pkg, expected_ver) in test_cases {
        let result = parse_package_filename(filename);
        assert!(result.is_some(), "Expected Some for {}, got None", filename);
        let (pkg, ver) = result.unwrap();
        assert_eq!(pkg, expected_pkg, "Package mismatch for {}", filename);
        assert_eq!(ver, expected_ver, "Version mismatch for {}", filename);
    }
}
