use chrono::{DateTime, Datelike, Duration, Utc};
use delay_mirror::delay_check::{DelayCheckError, DelayChecker, VersionCheckResult};
use delay_mirror::json::Json;
use delay_mirror::pypi::{
    convert_html_to_pep691_json, extract_attr_value, extract_url_and_hashes_for_json,
    filter_recent_versions_html, filter_recent_versions_json, generate_request_id, RequestContext,
};
use delay_mirror::pypi_handler::{
    build_sdist_filename, build_version_time_info_from_releases, find_download_url_for_version,
    find_sha256_for_file, normalize_package_name, parse_package_filename, parse_upload_time,
};
use delay_mirror::timestamp::Timestamp;
use serde_json::Value;

/// A JSON string.
fn text(s: &str) -> Json {
    Json::string(s)
}

/// A JSON object.
fn object(members: Vec<(&str, Json)>) -> Json {
    let mut result = Json::object();
    for (name, value) in members {
        result = result.put(name, value);
    }
    result
}

/// The value that serde_json holds for the same JSON.
fn shown(json: &Json) -> Value {
    match json {
        Json::Null => Value::Null,
        Json::Bool(b) => Value::Bool(*b),
        Json::Number(n) => serde_json::from_str(n).unwrap(),
        Json::Str(s) => Value::String(s.clone()),
        Json::Array(items) => Value::Array(items.iter().map(shown).collect()),
        Json::Object(members) => Value::Object(
            members
                .iter()
                .map(|(name, value)| (name.clone(), shown(value)))
                .collect(),
        ),
    }
}

/// The same moment in chrono's form.
fn moment(t: &Timestamp) -> DateTime<Utc> {
    DateTime::from_timestamp(t.secs, t.nanos).unwrap()
}

#[test]
fn pypi_test_normalize_package_name_basic() {
    assert_eq!(normalize_package_name("Django"), "django");
    assert_eq!(normalize_package_name("DJA_NGO"), "dja-ngo");
    assert_eq!(normalize_package_name("numpy-1.0"), "numpy-1-0");
    assert_eq!(normalize_package_name("Pillow"), "pillow");
    assert_eq!(normalize_package_name("some_package"), "some-package");
    assert_eq!(normalize_package_name("some.package"), "some-package");
    assert_eq!(normalize_package_name("some-package"), "some-package");
}

#[test]
fn pypi_test_normalize_package_name_with_dots() {
    assert_eq!(
        normalize_package_name("django-rest-framework"),
        "django-rest-framework"
    );
}

#[test]
fn pypi_test_normalize_package_name_with_underscores() {
    assert_eq!(
        normalize_package_name("django_rest_framework"),
        "django-rest-framework"
    );
}

#[test]
fn pypi_test_normalize_package_name_mixed_separators() {
    assert_eq!(
        normalize_package_name("Django_Rest-Framework.v2"),
        "django-rest-framework-v2"
    );
}

#[test]
fn pypi_test_parse_wheel_filename_basic() {
    assert_eq!(
        parse_package_filename("lodash-4.17.21-py3-none-any.whl"),
        Some(("lodash".to_string(), "4.17.21".to_string()))
    );
    assert_eq!(
        parse_package_filename("numpy-1.21.0-cp39-cp39-win_amd64.whl"),
        Some(("numpy".to_string(), "1.21.0".to_string()))
    );
    assert_eq!(
        parse_package_filename("package-1.0-1-py3-none-any.whl"),
        Some(("package".to_string(), "1.0".to_string()))
    );
}

#[test]
fn pypi_test_parse_sdist_filename_basic() {
    assert_eq!(
        parse_package_filename("lodash-4.17.21.tar.gz"),
        Some(("lodash".to_string(), "4.17.21".to_string()))
    );
    assert_eq!(
        parse_package_filename("numpy-1.21.0.tar.gz"),
        Some(("numpy".to_string(), "1.21.0".to_string()))
    );
    assert_eq!(
        parse_package_filename("my-package-2.0.0.tar.gz"),
        Some(("my-package".to_string(), "2.0.0".to_string()))
    );
}

#[test]
fn pypi_test_parse_invalid_filenames() {
    assert_eq!(parse_package_filename("invalid.txt"), None);
    assert_eq!(parse_package_filename("no-extension"), None);
}

#[test]
fn pypi_test_parse_wheel_with_build_tag() {
    assert_eq!(
        parse_package_filename("package-1.0.0+local-py3-none-any.whl"),
        Some(("package".to_string(), "1.0.0+local".to_string()))
    );
}

#[test]
fn pypi_test_parse_upload_time_valid_rfc3339() {
    let result = parse_upload_time("2024-01-15T10:30:00Z");
    assert!(result.is_ok());
    let dt = moment(&result.unwrap());
    assert_eq!(dt.year(), 2024);
    assert_eq!(dt.month(), 1);
    assert_eq!(dt.day(), 15);
}

#[test]
fn pypi_test_parse_upload_time_valid_with_offset() {
    let result = parse_upload_time("2024-06-20T14:45:00+08:00");
    assert!(result.is_ok());
}

#[test]
fn pypi_test_parse_upload_time_invalid() {
    let result = parse_upload_time("not-a-date");
    assert!(result.is_err());
    match result.unwrap_err() {
        DelayCheckError::InvalidTimeFormat(_) => {}
        other => panic!("Expected InvalidTimeFormat, got {:?}", other),
    }
}

#[test]
fn pypi_test_build_version_time_info_from_releases_valid() {
    let releases = object(vec![
        ("1.0.0", Json::Array(vec![object(vec![
            ("upload_time", text("2024-01-01T00:00:00Z")),
            ("filename", text("pkg-1.0.0.tar.gz")),
            ("url", text("https://example.com/pkg-1.0.0.tar.gz")),
        ])])),
        ("2.0.0", Json::Array(vec![object(vec![
            ("upload_time", text("2024-03-15T10:30:00Z")),
            ("filename", text("pkg-2.0.0.tar.gz")),
            ("url", text("https://example.com/pkg-2.0.0.tar.gz")),
        ])])),
        ("3.0.0", Json::Array(vec![object(vec![
            ("upload_time", text("2024-06-01T12:00:00Z")),
            ("filename", text("pkg-3.0.0-py3-none-any.whl")),
            ("url", text("https://example.com/pkg-3.0.0-py3-none-any.whl")),
        ])])),
    ]);

    let result = build_version_time_info_from_releases(&releases);
    assert!(result.is_ok());
    let time_value = shown(&result.unwrap());
    let time_obj = time_value.as_object().unwrap();
    assert_eq!(time_obj.len(), 3);
    assert_eq!(
        time_obj.get("1.0.0").unwrap().as_str().unwrap(),
        "2024-01-01T00:00:00Z"
    );
    assert_eq!(
        time_obj.get("2.0.0").unwrap().as_str().unwrap(),
        "2024-03-15T10:30:00Z"
    );
    assert_eq!(
        time_obj.get("3.0.0").unwrap().as_str().unwrap(),
        "2024-06-01T12:00:00Z"
    );
}

#[test]
fn pypi_test_build_version_time_info_from_releases_empty_releases() {
    let releases = Json::object();
    let result = build_version_time_info_from_releases(&releases);
    assert!(result.is_err());
    match result.unwrap_err() {
        DelayCheckError::MissingTimeField => {}
        other => panic!("Expected MissingTimeField, got {:?}", other),
    }
}

#[test]
fn pypi_test_build_version_time_info_from_releases_uses_first_file() {
    let releases = object(vec![
        ("1.0.0", Json::Array(vec![object(vec![
            ("upload_time", text("2024-01-01T00:00:00Z")),
            ("filename", text("pkg-1.0.0.tar.gz")),
            ]), object(vec![
                ("upload_time", text("2024-01-02T00:00:00Z")),
                ("filename", text("pkg-1.0.0-py3-none-any.whl")),
        ])])),
    ]);
    let result = shown(&build_version_time_info_from_releases(&releases).unwrap());
    let time_obj = result.as_object().unwrap();
    assert_eq!(
        time_obj.get("1.0.0").unwrap().as_str().unwrap(),
        "2024-01-01T00:00:00Z"
    );
}

#[test]
fn pypi_test_find_download_url_for_version_exact_match() {
    let releases = object(vec![
        ("1.0.0", Json::Array(vec![object(vec![
            ("filename", text("pkg-1.0.0.tar.gz")),
            ("url", text("https://files.pythonhosted.org/packages/pkg-1.0.0.tar.gz")),
            ]), object(vec![
                ("filename", text("pkg-1.0.0-py3-none-any.whl")),
                ("url", text("https://files.pythonhosted.org/packages/pkg-1.0.0-py3-none-any.whl")),
        ])])),
    ]);
    let result = find_download_url_for_version(&releases, "1.0.0", "pkg-1.0.0.tar.gz");
    assert_eq!(
        result,
        Some("https://files.pythonhosted.org/packages/pkg-1.0.0.tar.gz".to_string())
    );
}

#[test]
fn pypi_test_find_download_url_for_version_fallback_to_first() {
    let releases = object(vec![
        ("1.0.0", Json::Array(vec![object(vec![
            ("filename", text("pkg-1.0.0.tar.gz")),
            ("url", text("https://files.pythonhosted.org/packages/pkg-1.0.0.tar.gz")),
        ])])),
    ]);
    let result = find_download_url_for_version(&releases, "1.0.0", "nonexistent-file.whl");
    assert_eq!(
        result,
        Some("https://files.pythonhosted.org/packages/pkg-1.0.0.tar.gz".to_string())
    );
}

#[test]
fn pypi_test_find_download_url_for_version_not_found() {
    let releases = object(vec![
        ("1.0.0", Json::Array(Vec::new())),
    ]);
    let result = find_download_url_for_version(&releases, "1.0.0", "any-file.tar.gz");
    assert_eq!(result, None);
}

#[test]
fn pypi_test_build_sdist_filename() {
    assert_eq!(
        build_sdist_filename("requests", "2.28.0"),
        "requests-2.28.0.tar.gz"
    );
    assert_eq!(
        build_sdist_filename("my-package", "1.0.0"),
        "my-package-1.0.0.tar.gz"
    );
}

#[test]
fn pypi_test_end_to_delay_check_with_pypi_releases_format() {
    let now = Utc::now();
    let releases = object(vec![
        ("1.0.0", Json::Array(vec![object(vec![
            ("upload_time", text(&(now - Duration::days(100)).to_rfc3339())),
            ("filename", text("pkg-1.0.0.tar.gz")),
            ("url", text("https://example.com/1.tar.gz")),
        ])])),
        ("2.0.0", Json::Array(vec![object(vec![
            ("upload_time", text(&(now - Duration::days(50)).to_rfc3339())),
            ("filename", text("pkg-2.0.0.tar.gz")),
            ("url", text("https://example.com/2.tar.gz")),
        ])])),
        ("3.0.0", Json::Array(vec![object(vec![
            ("upload_time", text(&(now - Duration::days(1)).to_rfc3339())),
            ("filename", text("pkg-3.0.0.tar.gz")),
            ("url", text("https://example.com/3.tar.gz")),
        ])])),
    ]);

    let time_value = build_version_time_info_from_releases(&releases).unwrap();
    let checker = DelayChecker::new(7);
    let time_info = checker.parse_time_field(&time_value).unwrap();

    let result = checker.resolve_version("3.0.0", &time_info).unwrap();
    match result {
        VersionCheckResult::Downgraded {
            ref suggested_version,
            ..
        } => {
            assert_eq!(suggested_version, "2.0.0");
        }
        other => panic!("Expected Downgraded, got {:?}", other),
    }

    let result_old = checker.resolve_version("1.0.0", &time_info).unwrap();
    assert_eq!(result_old, VersionCheckResult::Allowed);
}

#[test]
fn pypi_test_all_versions_recent_in_pypi_format() {
    let now = Utc::now();
    let releases = object(vec![
        ("1.0.0", Json::Array(vec![object(vec![
            ("upload_time", text(&(now - Duration::days(2)).to_rfc3339())),
            ("filename", text("pkg-1.0.0.tar.gz")),
        ])])),
        ("2.0.0", Json::Array(vec![object(vec![
            ("upload_time", text(&(now - Duration::days(1)).to_rfc3339())),
            ("filename", text("pkg-2.0.0.tar.gz")),
        ])])),
    ]);

    let time_value = build_version_time_info_from_releases(&releases).unwrap();
    let checker = DelayChecker::new(30);
    let time_info = checker.parse_time_field(&time_value).unwrap();

    let result = checker.resolve_version("2.0.0", &time_info).unwrap();
    match result {
        VersionCheckResult::Denied { .. } => {}
        other => panic!(
            "Expected Denied when all versions are recent, got {:?}",
            other
        ),
    }
}

#[test]
fn pypi_test_extract_package_info_various_formats() {
    let test_cases = vec![
        ("Django-4.2.5-py3-none-any.whl", "Django", "4.2.5"),
        ("numpy-1.24.3-cp310-cp310-manylinux.whl", "numpy", "1.24.3"),
        ("Pillow-10.0.0.tar.gz", "Pillow", "10.0.0"),
        ("my_package-0.1.0.tar.gz", "my_package", "0.1.0"),
    ];

    for (filename, expected_pkg, expected_ver) in test_cases {
        let result = parse_package_filename(filename);
        assert!(result.is_some(), "Expected Some for {}, got None", filename);
        let (pkg, ver) = result.unwrap();
        assert_eq!(pkg, expected_pkg, "Package mismatch for {}", filename);
        assert_eq!(ver, expected_ver, "Version mismatch for {}", filename);
    }
}

#[test]
fn test_convert_html_to_pep691_json_basic() {
    let html = r#"<html><head><title>Links for django</title></head><body>
<a href="django-4.2.5-py3-none-any.whl#sha256=abc123">django-4.2.5-py3-none-any.whl</a>
<a href="django-4.2.5.tar.gz#sha256=def456">django-4.2.5.tar.gz</a>
</body></html>"#;

    let result = shown(&convert_html_to_pep691_json(html, "https://pypi.org/simple/django/"));
    assert_eq!(result["name"], "django");
    assert_eq!(result["meta"]["api-version"], "1.0");

    let files = result["files"].as_array().unwrap();
    assert_eq!(files.len(), 2);
    assert_eq!(files[0]["filename"], "django-4.2.5-py3-none-any.whl");
    assert_eq!(files[0]["hashes"]["sha256"], "abc123");
    assert_eq!(files[1]["filename"], "django-4.2.5.tar.gz");
}

#[test]
fn test_convert_html_to_pep691_json_with_yanked() {
    let html = r#"<html><head><title>Links for testpkg</title></head><body>
<a href="testpkg-1.0.0.tar.gz#sha256=aaa" data-yanked>testpkg-1.0.0.tar.gz</a>
<a href="testpkg-2.0.0.tar.gz#sha256=bbb">testpkg-2.0.0.tar.gz</a>
</body></html>"#;

    let result = shown(&convert_html_to_pep691_json(html, "https://pypi.org/simple/testpkg/"));
    let files = result["files"].as_array().unwrap();
    assert_eq!(files.len(), 2);
    assert_eq!(files[0]["yanked"], true);
    assert_eq!(files[1]["yanked"], false);
}

#[test]
fn test_convert_html_to_pep691_json_with_requires_python() {
    let html = r#"<html><head><title>Links for numpy</title></head><body>
<a href="numpy-1.24.3-cp310-cp310-manylinux.whl#sha256=abc" data-requires-python="&gt;=3.8">numpy-1.24.3-cp310-cp310-manylinux.whl</a>
</body></html>"#;

    let result = shown(&convert_html_to_pep691_json(html, "https://pypi.org/simple/numpy/"));
    let files = result["files"].as_array().unwrap();
    assert_eq!(files[0]["requires-python"], ">=3.8");
}

#[test]
fn test_convert_html_to_pep691_json_empty_html() {
    let html = "<html><head><title>Links for empty</title></head><body></body></html>";
    let result = shown(&convert_html_to_pep691_json(html, "https://pypi.org/simple/empty/"));
    assert_eq!(result["files"].as_array().unwrap().len(), 0);
}

#[test]
fn test_convert_html_to_pep691_json_relative_url() {
    let html = r#"<html><head><title>Links for pkg</title></head><body>
<a href="pkg-1.0.0.tar.gz#sha256=abc">pkg-1.0.0.tar.gz</a>
</body></html>"#;

    let result = shown(&convert_html_to_pep691_json(html, "https://files.pythonhosted.org/packages/source/p/pkg/"));
    let files = result["files"].as_array().unwrap();
    assert_eq!(
        files[0]["url"],
        "https://files.pythonhosted.org/packages/source/p/pkg/pkg-1.0.0.tar.gz"
    );
}

#[test]
fn test_convert_html_to_pep691_json_absolute_url() {
    let html = r#"<html><head><title>Links for pkg</title></head><body>
<a href="https://example.com/pkg-1.0.0.tar.gz#sha256=abc">pkg-1.0.0.tar.gz</a>
</body></html>"#;

    let result = shown(&convert_html_to_pep691_json(html, "https://pypi.org/simple/pkg/"));
    let files = result["files"].as_array().unwrap();
    assert_eq!(files[0]["url"], "https://example.com/pkg-1.0.0.tar.gz");
}

#[test]
fn test_filter_recent_versions_html_allows_old() {
    let checker = DelayChecker::new(3);
    let now = Utc::now();
    let old_time = (now - Duration::days(100)).to_rfc3339();

    let time_json = object(vec![
("1.0.0", text(&old_time)),
]);
    let time_info = checker.parse_time_field(&time_json).unwrap();

    let html = r#"<a href="pkg-1.0.0.tar.gz#sha256=abc">pkg-1.0.0.tar.gz</a>"#;
    let (filtered, blocked) = filter_recent_versions_html(html, &time_info, &checker);

    assert!(!filtered.is_empty());
    assert!(blocked.is_empty());
}

#[test]
fn test_filter_recent_versions_html_blocks_recent() {
    let checker = DelayChecker::new(365);
    let now = Utc::now();
    let recent_time = (now - Duration::days(1)).to_rfc3339();

    let time_json = object(vec![
("2.0.0", text(&recent_time)),
]);
    let time_info = checker.parse_time_field(&time_json).unwrap();

    let html = r#"<a href="pkg-2.0.0.tar.gz#sha256=abc">pkg-2.0.0.tar.gz</a>"#;
    let (filtered, blocked) = filter_recent_versions_html(html, &time_info, &checker);

    assert!(filtered.trim().is_empty());
    assert_eq!(blocked.len(), 1);
    assert_eq!(blocked[0], "2.0.0");
}

#[test]
fn test_filter_recent_versions_json_allows_old() {
    let checker = DelayChecker::new(3);
    let now = Utc::now();
    let old_time = (now - Duration::days(100)).to_rfc3339();

    let time_json = object(vec![
        ("1.0.0", text(&old_time)),
    ]);
    let time_info = checker.parse_time_field(&time_json).unwrap();

    let json_body = object(vec![
        ("meta", object(vec![
            ("api-version", text("1.0")),
        ])),
        ("name", text("pkg")),
        ("files", Json::Array(vec![object(vec![
            ("filename", text("pkg-1.0.0.tar.gz")),
            ("url", text("https://example.com/pkg-1.0.0.tar.gz")),
        ])])),
    ]);

    let (filtered, blocked) = filter_recent_versions_json(json_body, &time_info, &checker);
    let filtered = shown(&filtered);
    assert_eq!(filtered["files"].as_array().unwrap().len(), 1);
    assert!(blocked.is_empty());
}

#[test]
fn test_filter_recent_versions_json_blocks_recent() {
    let checker = DelayChecker::new(365);
    let now = Utc::now();
    let recent_time = (now - Duration::days(1)).to_rfc3339();

    let time_json = object(vec![
        ("2.0.0", text(&recent_time)),
    ]);
    let time_info = checker.parse_time_field(&time_json).unwrap();

    let json_body = object(vec![
        ("meta", object(vec![
            ("api-version", text("1.0")),
        ])),
        ("name", text("pkg")),
        ("files", Json::Array(vec![object(vec![
            ("filename", text("pkg-2.0.0.tar.gz")),
            ("url", text("https://example.com/pkg-2.0.0.tar.gz")),
        ])])),
    ]);

    let (filtered, blocked) = filter_recent_versions_json(json_body, &time_info, &checker);
    let filtered = shown(&filtered);
    assert_eq!(filtered["files"].as_array().unwrap().len(), 0);
    assert_eq!(blocked.len(), 1);
    assert_eq!(blocked[0], "2.0.0");
}

#[test]
fn test_filter_recent_versions_json_mixed() {
    let checker = DelayChecker::new(30);
    let now = Utc::now();
    let time_json = object(vec![
        ("1.0.0", text(&(now - Duration::days(100)).to_rfc3339())),
        ("2.0.0", text(&(now - Duration::days(5)).to_rfc3339())),
    ]);
    let time_info = checker.parse_time_field(&time_json).unwrap();

    let json_body = object(vec![
        ("meta", object(vec![
            ("api-version", text("1.0")),
        ])),
        ("name", text("pkg")),
        ("files", Json::Array(vec![object(vec![
            ("filename", text("pkg-1.0.0.tar.gz")),
            ("url", text("https://example.com/1.tar.gz")),
            ]), object(vec![
                ("filename", text("pkg-2.0.0.tar.gz")),
                ("url", text("https://example.com/2.tar.gz")),
        ])])),
    ]);

    let (filtered, blocked) = filter_recent_versions_json(json_body, &time_info, &checker);
    let filtered = shown(&filtered);
    assert_eq!(filtered["files"].as_array().unwrap().len(), 1);
    assert_eq!(blocked.len(), 1);
    assert_eq!(blocked[0], "2.0.0");
}

#[test]
fn test_find_sha256_for_file_found() {
    let releases = object(vec![
        ("1.0.0", Json::Array(vec![object(vec![
            ("filename", text("pkg-1.0.0.tar.gz")),
            ("url", text("https://example.com/pkg-1.0.0.tar.gz")),
            ("sha256_digest", text("abc123def456")),
        ])])),
    ]);
    let result = find_sha256_for_file(&releases, "1.0.0", "pkg-1.0.0.tar.gz");
    assert_eq!(result, Some("abc123def456".to_string()));
}

#[test]
fn test_find_sha256_for_file_not_found() {
    let releases = object(vec![
        ("1.0.0", Json::Array(vec![object(vec![
            ("filename", text("pkg-1.0.0.tar.gz")),
            ("url", text("https://example.com/pkg-1.0.0.tar.gz")),
        ])])),
    ]);
    let result = find_sha256_for_file(&releases, "1.0.0", "pkg-1.0.0.tar.gz");
    assert_eq!(result, None);
}

#[test]
fn test_find_sha256_for_file_no_files() {
    let releases = object(vec![
        ("1.0.0", Json::Array(Vec::new())),
    ]);
    let result = find_sha256_for_file(&releases, "1.0.0", "pkg-1.0.0.tar.gz");
    assert_eq!(result, None);
}

#[test]
fn test_find_sha256_for_file_version_not_found() {
    let releases = object(vec![
        ("1.0.0", Json::Array(vec![object(vec![
            ("filename", text("pkg-1.0.0.tar.gz")),
            ("sha256_digest", text("abc")),
        ])])),
    ]);
    let result = find_sha256_for_file(&releases, "2.0.0", "pkg-2.0.0.tar.gz");
    assert_eq!(result, None);
}

#[test]
fn test_extract_url_and_hashes_for_json_basic() {
    let (url, hashes) = extract_url_and_hashes_for_json(
        "pkg-1.0.0.tar.gz#sha256=abc123&md5=def456",
        "https://files.pythonhosted.org/packages",
    );
    let hashes = shown(&hashes);
    assert_eq!(url, "https://files.pythonhosted.org/packages/pkg-1.0.0.tar.gz");
    assert_eq!(hashes["sha256"], "abc123");
    assert_eq!(hashes["md5"], "def456");
}

#[test]
fn test_extract_url_and_hashes_for_json_no_fragment() {
    let (url, hashes) = extract_url_and_hashes_for_json(
        "pkg-1.0.0.tar.gz",
        "https://files.pythonhosted.org/packages",
    );
    let hashes = shown(&hashes);
    assert_eq!(url, "https://files.pythonhosted.org/packages/pkg-1.0.0.tar.gz");
    assert!(hashes.as_object().unwrap().is_empty());
}

#[test]
fn test_extract_url_and_hashes_for_json_absolute_url() {
    let (url, hashes) = extract_url_and_hashes_for_json(
        "https://example.com/pkg-1.0.0.tar.gz#sha256=abc",
        "https://files.pythonhosted.org/packages",
    );
    let hashes = shown(&hashes);
    assert_eq!(url, "https://example.com/pkg-1.0.0.tar.gz");
    assert_eq!(hashes["sha256"], "abc");
}

#[test]
fn test_extract_attr_value_found() {
    let attrs = r#"data-requires-python=">=3.8" data-yanked"#;
    let result = extract_attr_value(attrs, "data-requires-python");
    assert_eq!(result, Some(">=3.8".to_string()));
}

#[test]
fn test_extract_attr_value_not_found() {
    let attrs = r#"data-yanked"#;
    let result = extract_attr_value(attrs, "data-requires-python");
    assert_eq!(result, None);
}

#[test]
fn test_request_context_new() {
    let ctx = RequestContext::new();
    assert!(ctx.pypi_metadata_cache.is_empty());
}

#[test]
fn test_generate_request_id_format() {
    let id1 = generate_request_id();
    let id2 = generate_request_id();
    assert!(!id1.is_empty());
    assert!(!id2.is_empty());
    assert_ne!(id1, id2);
    // Should be hex
    assert!(id1.chars().all(|c| c.is_ascii_hexdigit()));
}
