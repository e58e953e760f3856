use chrono::{Duration, Utc};
use delay_mirror::delay_check::{DelayCheckError, DelayChecker};
use delay_mirror::json::Json;
use delay_mirror::npm::{
    extract_version_from_filename, filter_versions_by_delay, rewrite_tarball_urls,
};
use serde_json::Value;

/// A JSON string.
fn text(s: &str) -> Json {
    Json::string(s)
}

/// A JSON object.
fn object(members: Vec<(&str, Json)>) -> Json {
    let mut result = Json::object();
    for (name, value) in members {
        result = result.put(name, value);
    }
    result
}

/// The value that serde_json holds for the same JSON.
fn shown(json: &Json) -> Value {
    match json {
        Json::Null => Value::Null,
        Json::Bool(b) => Value::Bool(*b),
        Json::Number(n) => serde_json::from_str(n).unwrap(),
        Json::Str(s) => Value::String(s.clone()),
        Json::Array(items) => Value::Array(items.iter().map(shown).collect()),
        Json::Object(members) => Value::Object(
            members
                .iter()
                .map(|(name, value)| (name.clone(), shown(value)))
                .collect(),
        ),
    }
}

fn make_old_metadata() -> Json {
    let now = Utc::now();
    object(vec![
        ("name", text("test-package")),
        ("dist-tags", object(vec![
            ("latest", text("3.0.0")),
        ])),
        ("versions", object(vec![
            ("1.0.0", object(vec![
                ("version", text("1.0.0")),
                ("dist", object(vec![
                    ("tarball", text("https://registry.npmmirror.com/test-package/-/test-package-1.0.0.tgz")),
                ])),
            ])),
            ("2.0.0", object(vec![
                ("version", text("2.0.0")),
                ("dist", object(vec![
                    ("tarball", text("https://registry.npmmirror.com/test-package/-/test-package-2.0.0.tgz")),
                ])),
            ])),
            ("3.0.0", object(vec![
                ("version", text("3.0.0")),
                ("dist", object(vec![
                    ("tarball", text("https://registry.npmmirror.com/test-package/-/test-package-3.0.0.tgz")),
                ])),
            ])),
        ])),
        ("time", object(vec![
            ("created", text(&(now - Duration::days(100)).to_rfc3339())),
            ("modified", text(&(now - Duration::days(10)).to_rfc3339())),
            ("1.0.0", text(&(now - Duration::days(100)).to_rfc3339())),
            ("2.0.0", text(&(now - Duration::days(50)).to_rfc3339())),
            ("3.0.0", text(&(now - Duration::days(10)).to_rfc3339())),
        ])),
    ])
}

fn make_mixed_metadata() -> Json {
    let now = Utc::now();
    object(vec![
        ("name", text("mixed-package")),
        ("dist-tags", object(vec![
            ("latest", text("4.0.0")),
        ])),
        ("versions", object(vec![
            ("1.0.0", object(vec![
                ("version", text("1.0.0")),
                ("dist", object(vec![
                    ("tarball", text("https://registry.npmmirror.com/mixed-package/-/mixed-package-1.0.0.tgz")),
                ])),
            ])),
            ("2.0.0", object(vec![
                ("version", text("2.0.0")),
                ("dist", object(vec![
                    ("tarball", text("https://registry.npmmirror.com/mixed-package/-/mixed-package-2.0.0.tgz")),
                ])),
            ])),
            ("3.0.0", object(vec![
                ("version", text("3.0.0")),
                ("dist", object(vec![
                    ("tarball", text("https://registry.npmmirror.com/mixed-package/-/mixed-package-3.0.0.tgz")),
                ])),
            ])),
            ("4.0.0", object(vec![
                ("version", text("4.0.0")),
                ("dist", object(vec![
                    ("tarball", text("https://registry.npmmirror.com/mixed-package/-/mixed-package-4.0.0.tgz")),
                ])),
            ])),
        ])),
        ("time", object(vec![
            ("created", text(&(now - Duration::days(100)).to_rfc3339())),
            ("modified", text(&(now - Duration::days(1)).to_rfc3339())),
            ("1.0.0", text(&(now - Duration::days(100)).to_rfc3339())),
            ("2.0.0", text(&(now - Duration::days(50)).to_rfc3339())),
            ("3.0.0", text(&(now - Duration::days(5)).to_rfc3339())),
            ("4.0.0", text(&(now - Duration::days(1)).to_rfc3339())),
        ])),
    ])
}

fn make_all_recent_metadata() -> Json {
    let now = Utc::now();
    object(vec![
        ("name", text("recent-package")),
        ("dist-tags", object(vec![
            ("latest", text("2.0.0")),
        ])),
        ("versions", object(vec![
            ("1.0.0", object(vec![
                ("version", text("1.0.0")),
                ("dist", object(vec![
                    ("tarball", text("https://registry.npmmirror.com/recent-package/-/recent-package-1.0.0.tgz")),
                ])),
            ])),
            ("2.0.0", object(vec![
                ("version", text("2.0.0")),
                ("dist", object(vec![
                    ("tarball", text("https://registry.npmmirror.com/recent-package/-/recent-package-2.0.0.tgz")),
                ])),
            ])),
        ])),
        ("time", object(vec![
            ("created", text(&(now - Duration::days(2)).to_rfc3339())),
            ("modified", text(&(now - Duration::days(1)).to_rfc3339())),
            ("1.0.0", text(&(now - Duration::days(2)).to_rfc3339())),
            ("2.0.0", text(&(now - Duration::days(1)).to_rfc3339())),
        ])),
    ])
}

#[test]
fn test_extract_version_from_filename_valid() {
    assert_eq!(
        extract_version_from_filename("lodash-4.17.21.tgz"),
        Some("4.17.21".to_string())
    );
    assert_eq!(
        extract_version_from_filename("react-18.2.0.tgz"),
        Some("18.2.0".to_string())
    );
}

#[test]
fn test_extract_version_from_filename_invalid() {
    assert_eq!(extract_version_from_filename("invalid.tgz"), None);
    assert_eq!(extract_version_from_filename("no-extension.tar"), None);
    assert_eq!(extract_version_from_filename(""), None);
}

#[test]
fn test_extract_version_from_filename_prerelease() {
    assert_eq!(
        extract_version_from_filename("pkg-1.0.0-beta.1.tgz"),
        Some("1.0.0-beta.1".to_string())
    );
    assert_eq!(
        extract_version_from_filename("pkg-2.0.0-rc.1.tgz"),
        Some("2.0.0-rc.1".to_string())
    );
}

#[test]
fn test_filter_versions_by_delay_all_old() {
    let checker = DelayChecker::new(5);
    let mut metadata = make_old_metadata();
    let result = filter_versions_by_delay(&mut metadata, &checker).unwrap();
    assert!(!result);
    let metadata = shown(&metadata);

    let versions = metadata.get("versions").unwrap().as_object().unwrap();
    assert_eq!(versions.len(), 3);
}

#[test]
fn test_filter_versions_by_delay_mixed() {
    let checker = DelayChecker::new(7);
    let mut metadata = make_mixed_metadata();
    let result = filter_versions_by_delay(&mut metadata, &checker).unwrap();
    assert!(!result);
    let metadata = shown(&metadata);

    let versions = metadata.get("versions").unwrap().as_object().unwrap();
    assert_eq!(versions.len(), 2);
    assert!(versions.contains_key("1.0.0"));
    assert!(versions.contains_key("2.0.0"));
    assert!(!versions.contains_key("3.0.0"));
    assert!(!versions.contains_key("4.0.0"));

    let dist_tags = metadata.get("dist-tags").unwrap().as_object().unwrap();
    assert_eq!(dist_tags.get("latest").unwrap().as_str().unwrap(), "2.0.0");
}

#[test]
fn test_filter_versions_by_delay_all_recent() {
    let checker = DelayChecker::new(30);
    let mut metadata = make_all_recent_metadata();
    let result = filter_versions_by_delay(&mut metadata, &checker).unwrap();
    assert!(result);
    let metadata = shown(&metadata);

    let versions = metadata.get("versions").unwrap().as_object().unwrap();
    assert_eq!(versions.len(), 2);
}

#[test]
fn test_filter_versions_by_delay_missing_time() {
    let checker = DelayChecker::default();
    let mut metadata = object(vec![
        ("name", text("no-time-pkg")),
        ("versions", object(vec![
            ("1.0.0", Json::object()),
        ])),
    ]);
    let result = filter_versions_by_delay(&mut metadata, &checker);
    assert!(result.is_err());
    match result.unwrap_err() {
        DelayCheckError::MissingTimeField => {}
        other => panic!("Expected MissingTimeField, got {:?}", other),
    }
}

#[test]
fn test_rewrite_tarball_urls_basic() {
    let mut metadata = object(vec![
        ("name", text("test-package")),
        ("versions", object(vec![
            ("1.0.0", object(vec![
                ("dist", object(vec![
                    ("tarball", text("https://registry.npmmirror.com/test-package/-/test-package-1.0.0.tgz")),
                ])),
            ])),
            ("2.0.0", object(vec![
                ("dist", object(vec![
                    ("tarball", text("https://registry.npmmirror.com/test-package/-/test-package-2.0.0.tgz")),
                ])),
            ])),
        ])),
    ]);

    rewrite_tarball_urls(
        &mut metadata,
        "http://localhost:8787",
        "https://registry.npmmirror.com",
    );
    let metadata = shown(&metadata);

    let versions = metadata.get("versions").unwrap().as_object().unwrap();
    let v1 = versions.get("1.0.0").unwrap();
    let v2 = versions.get("2.0.0").unwrap();

    assert_eq!(
        v1.get("dist")
            .unwrap()
            .get("tarball")
            .unwrap()
            .as_str()
            .unwrap(),
        "http://localhost:8787/dl/test-package@1.0.0"
    );
    assert_eq!(
        v2.get("dist")
            .unwrap()
            .get("tarball")
            .unwrap()
            .as_str()
            .unwrap(),
        "http://localhost:8787/dl/test-package@2.0.0"
    );
}

#[test]
fn test_rewrite_tarball_urls_preserves_other_fields() {
    let mut metadata = object(vec![
        ("name", text("complex-package")),
        ("description", text("A complex package")),
        ("versions", object(vec![
            ("1.0.0", object(vec![
                ("name", text("complex-package")),
                ("version", text("1.0.0")),
                ("dist", object(vec![
                    ("tarball", text("https://registry.npmmirror.com/complex/-/complex-1.0.0.tgz")),
                    ("shasum", text("abc123")),
                    ("integrity", text("sha512-xyz789")),
                ])),
            ])),
        ])),
    ]);

    rewrite_tarball_urls(
        &mut metadata,
        "http://gateway:8787",
        "https://registry.npmmirror.com",
    );
    let metadata = shown(&metadata);

    assert_eq!(
        metadata.get("name").unwrap().as_str().unwrap(),
        "complex-package"
    );
    assert_eq!(
        metadata.get("description").unwrap().as_str().unwrap(),
        "A complex package"
    );

    let v1 = metadata.get("versions").unwrap().get("1.0.0").unwrap();
    assert_eq!(v1.get("name").unwrap().as_str().unwrap(), "complex-package");
    assert_eq!(v1.get("version").unwrap().as_str().unwrap(), "1.0.0");

    let dist = v1.get("dist").unwrap().as_object().unwrap();
    assert_eq!(dist.get("shasum").unwrap().as_str().unwrap(), "abc123");
    assert_eq!(
        dist.get("integrity").unwrap().as_str().unwrap(),
        "sha512-xyz789"
    );
    assert!(dist
            .get("tarball")
            .unwrap()
            .as_str()
            .unwrap()
            .starts_with("http://gateway:8787/dl/"));
}

#[test]
fn test_filter_versions_maintains_time_info() {
    let checker = DelayChecker::new(7);
    let mut metadata = make_mixed_metadata();
    filter_versions_by_delay(&mut metadata, &checker).unwrap();
    let metadata = shown(&metadata);

    let time = metadata.get("time").unwrap().as_object().unwrap();
    assert!(time.contains_key("created"));
    assert!(time.contains_key("modified"));
    assert!(time.contains_key("1.0.0"));
    assert!(time.contains_key("2.0.0"));
    assert!(!time.contains_key("3.0.0"));
    assert!(!time.contains_key("4.0.0"));
}

#[test]
fn test_filter_versions_selects_latest_eligible_as_dist_tag() {
    let now = Utc::now();
    let checker = DelayChecker::new(7);
    let mut metadata = object(vec![
        ("dist-tags", object(vec![
            ("latest", text("5.0.0")),
        ])),
        ("versions", object(vec![
            ("1.0.0", Json::object()),
            ("2.5.0", Json::object()),
            ("3.1.0", Json::object()),
        ])),
        ("time", object(vec![
            ("created", text("2020-01-01T00:00:00Z")),
            ("modified", text("2024-06-15T12:00:00Z")),
            ("1.0.0", text(&(now - Duration::days(100)).to_rfc3339())),
            ("2.5.0", text(&(now - Duration::days(50)).to_rfc3339())),
            ("3.1.0", text(&(now - Duration::days(2)).to_rfc3339())),
        ])),
    ]);

    filter_versions_by_delay(&mut metadata, &checker).unwrap();
    let metadata = shown(&metadata);

    let dist_tags = metadata.get("dist-tags").unwrap().as_object().unwrap();
    assert_eq!(dist_tags.get("latest").unwrap().as_str().unwrap(), "2.5.0");
}

#[test]
fn test_extract_version_scoped_packages() {
    assert_eq!(
        extract_version_from_filename("@types/node-20.0.0.tgz"),
        Some("20.0.0".to_string())
    );
    assert_eq!(
        extract_version_from_filename("@scope/pkg-name-1.2.3.tgz"),
        Some("1.2.3".to_string())
    );
}
