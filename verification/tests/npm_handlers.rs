use delay_mirror::config::Config;
use delay_mirror::delay_check::DelayChecker;
use delay_mirror::delay_logger::DelayAction;
use delay_mirror::fetch::MetadataFetch;
use delay_mirror::json::Json;
use delay_mirror::npm::{
    download_request, fetch_package_metadata, filter_versions_by_delay, get_base_url,
    handle_npm_download, handle_npm_metadata, handle_npm_version, metadata_request, metadata_url,
    rewrite_tarball_urls, version_request, PackageAction,
};
use delay_mirror::reply::{Body, Reply};
use delay_mirror::timestamp::Timestamp;
use serde_json::Value;

/// A JSON string.
fn text(s: &str) -> Json {
    Json::string(s)
}

/// A JSON object.
fn object(members: Vec<(&str, Json)>) -> Json {
    let mut result = Json::object();
    for (name, value) in members {
        result = result.put(name, value);
    }
    result
}

/// The value that serde_json holds for the same JSON.
fn shown(json: &Json) -> Value {
    match json {
        Json::Null => Value::Null,
        Json::Bool(b) => Value::Bool(*b),
        Json::Number(n) => serde_json::from_str(n).unwrap(),
        Json::Str(s) => Value::String(s.clone()),
        Json::Array(items) => Value::Array(items.iter().map(shown).collect()),
        Json::Object(members) => Value::Object(
            members
                .iter()
                .map(|(name, value)| (name.clone(), shown(value)))
                .collect(),
        ),
    }
}

/// The JSON in the body of an answer.
fn body(reply: &Reply) -> Value {
    match &reply.body {
        Body::Json(json) => shown(json),
        other => panic!("Expected JSON, got {:?}", other),
    }
}

/// A header of an answer.
fn header<'a>(reply: &'a Reply, name: &str) -> Option<&'a str> {
    reply
        .headers
        .iter()
        .find(|(n, _)| n == name)
        .map(|(_, v)| v.as_str())
}

/// A checker of three days at noon on 15 June 2024.
fn checker() -> DelayChecker {
    DelayChecker::at(
        Timestamp {
            secs: 1_718_452_800,
            nanos: 0,
        },
        3,
    )
}

/// A package with an old, an older and a young version.
fn metadata() -> Json {
    object(vec![
        ("name", text("pkg")),
        ("dist-tags", object(vec![("latest", text("2.0.0"))])),
        (
            "time",
            object(vec![
                ("created", text("2020-01-01T00:00:00Z")),
                ("modified", text("2024-06-15T00:00:00Z")),
                ("1.9.0", text("2024-01-01T00:00:00Z")),
                ("1.10.0", text("2023-12-01T00:00:00Z")),
                ("2.0.0", text("2024-06-14T00:00:00Z")),
            ]),
        ),
        (
            "versions",
            object(
                ["1.9.0", "1.10.0", "2.0.0", "9.9.9"]
                    .iter()
                    .map(|v| {
                        (
                            *v,
                            object(vec![(
                                "dist",
                                object(vec![("tarball", text("https://upstream/x.tgz"))]),
                            )]),
                        )
                    })
                    .collect(),
            ),
        ),
    ])
}

/// A package with young versions only.
fn young() -> Json {
    object(vec![
        ("name", text("pkg")),
        ("time", object(vec![("1.0.0", text("2024-06-15T00:00:00Z"))])),
        ("versions", object(vec![("1.0.0", Json::object())])),
    ])
}

fn answer(action: PackageAction) -> Reply {
    match action {
        PackageAction::Answer(reply) => reply,
        _ => panic!("Expected an answer"),
    }
}

#[test]
fn the_base_url_names_the_host() {
    assert_eq!(get_base_url("mirror.example"), "https://mirror.example");
    assert_eq!(get_base_url(""), "");
}

#[test]
fn upstream_metadata_is_found_under_the_package() {
    assert_eq!(
        metadata_url("https://registry.npmmirror.com", "@a/b"),
        "https://registry.npmmirror.com/@a/b"
    );
}

#[test]
fn npm_paths_name_package_and_version() {
    assert_eq!(metadata_request("/npm/lodash"), Ok("lodash".to_string()));
    assert_eq!(
        version_request("/npm/lodash/4.17.21"),
        Ok(("lodash".to_string(), "4.17.21".to_string()))
    );
    let reply = metadata_request("/npm/").unwrap_err();
    assert_eq!(reply.status, 400);
    assert_eq!(body(&reply)["error"], "Package name is required");
    let reply = version_request("/npm/lodash/").unwrap_err();
    assert_eq!(reply.status, 400);
    assert_eq!(body(&reply)["error"], "Version is required");
    let reply = version_request("/npm").unwrap_err();
    assert_eq!(body(&reply)["error"], "Package name is required");
}

#[test]
fn download_paths_split_at_the_last_at_sign() {
    assert_eq!(
        download_request("/dl/lodash@4.17.21"),
        Ok(("lodash".to_string(), "4.17.21".to_string()))
    );
    assert_eq!(
        download_request("/dl/@scope/pkg@1.0.0"),
        Ok(("@scope/pkg".to_string(), "1.0.0".to_string()))
    );
    let reply = download_request("/dl/").unwrap_err();
    assert_eq!(reply.status, 400);
    assert_eq!(
        body(&reply)["error"],
        "Package identifier is required. Use /dl/{package@{version}"
    );
    for path in ["/dl/lodash", "/dl/lodash@"] {
        let reply = download_request(path).unwrap_err();
        assert_eq!(reply.status, 400);
        assert_eq!(body(&reply)["expected"], "/dl/{package}@{version}");
        assert_eq!(body(&reply)["got"], &path[4..]);
    }
    let reply = download_request("/dl/@1.0.0").unwrap_err();
    assert_eq!(
        body(&reply)["expected"],
        "/dl/{package}@{version} or /dl/{@scope/package}@{version}"
    );
}

#[test]
fn failures_of_the_npm_registry_are_answered() {
    let failed = |fetched| fetch_package_metadata("pkg", fetched).unwrap_err();
    let reply = failed(MetadataFetch::NotSent("bad url".to_string()));
    assert_eq!(reply.status, 502);
    assert_eq!(body(&reply)["error"], "Failed to create upstream request");
    assert_eq!(body(&reply)["details"], "bad url");
    let reply = failed(MetadataFetch::NotAnswered("refused".to_string()));
    assert_eq!(reply.status, 502);
    assert_eq!(
        body(&reply)["error"],
        "Failed to connect to upstream registry"
    );
    let reply = failed(MetadataFetch::Parsed {
        status: 404,
        metadata: Json::Null,
    });
    assert_eq!(reply.status, 404);
    assert_eq!(body(&reply)["error"], "Package not found");
    assert_eq!(body(&reply)["package"], "pkg");
    let reply = failed(MetadataFetch::Parsed {
        status: 503,
        metadata: Json::Null,
    });
    assert_eq!(reply.status, 502);
    assert_eq!(body(&reply)["status"], 503);
    let reply = failed(MetadataFetch::Unreadable {
        status: 200,
        error: "cut".to_string(),
    });
    assert_eq!(reply.status, 500);
    assert_eq!(body(&reply)["error"], "Failed to read upstream response");
    let reply = failed(MetadataFetch::Malformed {
        status: 200,
        error: "eof".to_string(),
    });
    assert_eq!(reply.status, 500);
    assert_eq!(body(&reply)["error"], "Failed to parse package metadata");
    assert_eq!(
        fetch_package_metadata(
            "pkg",
            MetadataFetch::Parsed {
                status: 200,
                metadata: text("m"),
            },
        ),
        Ok(text("m"))
    );
}

#[test]
fn metadata_is_filtered_and_rewritten() {
    let reply = handle_npm_metadata(metadata(), &checker(), "https://mirror.example");
    assert_eq!(reply.status, 200);
    assert_eq!(header(&reply, "Content-Type"), Some("application/json"));
    assert_eq!(header(&reply, "X-Delay-Warning"), None);
    let json = body(&reply);
    assert_eq!(
        json["versions"].as_object().unwrap().keys().collect::<Vec<_>>(),
        ["1.10.0", "1.9.0"]
    );
    assert_eq!(json["dist-tags"]["latest"], "1.10.0");
    assert_eq!(json["time"].as_object().unwrap().len(), 4);
    assert!(json["time"].get("2.0.0").is_none());
    assert_eq!(
        json["versions"]["1.9.0"]["dist"]["tarball"],
        "https://mirror.example/dl/pkg@1.9.0"
    );
}

#[test]
fn metadata_with_young_versions_only_comes_with_a_warning() {
    let reply = handle_npm_metadata(young(), &checker(), "");
    assert_eq!(reply.status, 200);
    assert_eq!(
        header(&reply, "X-Delay-Warning"),
        Some("All versions are recent")
    );
    assert!(body(&reply)["versions"].get("1.0.0").is_some());
}

#[test]
fn metadata_without_times_is_an_error() {
    let reply = handle_npm_metadata(Json::object(), &checker(), "");
    assert_eq!(reply.status, 500);
    assert_eq!(body(&reply)["error"], "Unable to determine version ages");
    let reply = handle_npm_metadata(object(vec![("time", Json::Null)]), &checker(), "");
    assert_eq!(reply.status, 500);
    assert_eq!(body(&reply)["error"], "Delay check failed");
    assert!(body(&reply)["details"]
        .as_str()
        .unwrap()
        .starts_with("Invalid time field format: "));
}

#[test]
fn filtering_twice_changes_nothing_more() {
    let mut once = metadata();
    assert!(!filter_versions_by_delay(&mut once, &checker()).unwrap());
    let mut twice = once.clone();
    assert!(!filter_versions_by_delay(&mut twice, &checker()).unwrap());
    assert_eq!(once, twice);
}

#[test]
fn rewriting_twice_changes_nothing_more() {
    let mut once = metadata();
    rewrite_tarball_urls(&mut once, "https://mirror.example", "r");
    assert_ne!(once, metadata());
    let mut twice = once.clone();
    rewrite_tarball_urls(&mut twice, "https://mirror.example", "r");
    assert_eq!(once, twice);
}

#[test]
fn tarballs_of_a_package_without_a_name() {
    let mut json = object(vec![(
        "versions",
        object(vec![
            (
                "1.0.0",
                object(vec![("dist", object(vec![("tarball", text("x"))]))]),
            ),
            (
                "2.0.0",
                object(vec![("dist", object(vec![("tarball", Json::Null)]))]),
            ),
            ("3.0.0", Json::Null),
        ]),
    )]);
    rewrite_tarball_urls(&mut json, "b", "r");
    let json = shown(&json);
    assert_eq!(
        json["versions"]["1.0.0"]["dist"]["tarball"],
        "b/dl/unknown@1.0.0"
    );
    assert!(json["versions"]["2.0.0"]["dist"]["tarball"].is_null());
    assert!(json["versions"]["3.0.0"].is_null());
}

#[test]
fn an_old_version_is_redirected_to_the_registry() {
    let (action, log) =
        handle_npm_version(&Config::default(), &checker(), "pkg", "1.9.0", &metadata(), None);
    match action {
        PackageAction::Redirect { url } => {
            assert_eq!(url, "https://registry.npmjs.org/pkg/-/pkg-1.9.0.tgz")
        }
        _ => panic!("Expected a redirect"),
    }
    assert_eq!(log.len(), 1);
    assert_eq!(log[0].action, DelayAction::Allowed);
    assert_eq!(log[0].package_name, "pkg");
    assert_eq!(log[0].original_version, "1.9.0");
    assert_eq!(log[0].actual_version, None);
    assert_eq!(log[0].reason, "Version passed delay check");
}

#[test]
fn a_young_version_is_refused_with_a_suggestion() {
    let (action, log) = handle_npm_version(
        &Config::default(),
        &checker(),
        "pkg",
        "2.0.0",
        &metadata(),
        Some("10.0.0.1"),
    );
    let reply = answer(action);
    assert_eq!(reply.status, 403);
    assert_eq!(header(&reply, "X-Delay-Original-Version"), Some("2.0.0"));
    assert_eq!(header(&reply, "X-Delay-Suggested-Version"), Some("1.10.0"));
    assert_eq!(
        header(&reply, "X-Delay-Reason"),
        Some("Version published too recently, below delay threshold")
    );
    let json = body(&reply);
    assert_eq!(json["error"], "Version too recent for download");
    assert_eq!(json["package"], "pkg");
    assert_eq!(json["requested_version"], "2.0.0");
    assert_eq!(
        json["reason"],
        "Version was published within the last 3 day(s)"
    );
    assert_eq!(json["suggested_version"], "1.10.0");
    assert_eq!(log.len(), 2);
    assert_eq!(log[0].action, DelayAction::Denied);
    assert_eq!(log[0].client_ip, Some("10.0.0.1".to_string()));
    assert_eq!(log[1].action, DelayAction::Downgraded);
    assert_eq!(log[1].actual_version, Some("1.10.0".to_string()));
}

#[test]
fn a_young_version_without_an_elder_is_refused_without_a_suggestion() {
    let (action, log) =
        handle_npm_version(&Config::default(), &checker(), "pkg", "1.0.0", &young(), None);
    let reply = answer(action);
    assert_eq!(reply.status, 403);
    assert_eq!(header(&reply, "X-Delay-Suggested-Version"), None);
    assert!(body(&reply)["suggested_version"].is_null());
    assert_eq!(log.len(), 1);
}

#[test]
fn versions_that_cannot_be_judged_are_errors() {
    let config = Config::default();
    let reply = answer(handle_npm_version(&config, &checker(), "pkg", "7.0.0", &metadata(), None).0);
    assert_eq!(reply.status, 404);
    assert_eq!(body(&reply)["error"], "Version not found");
    assert_eq!(body(&reply)["version"], "7.0.0");
    let reply = answer(handle_npm_version(&config, &checker(), "pkg", "1", &Json::object(), None).0);
    assert_eq!(reply.status, 500);
    assert_eq!(body(&reply)["error"], "Unable to determine version age");
    let bad = object(vec![("time", object(vec![("1", text("soon"))]))]);
    let reply = answer(handle_npm_version(&config, &checker(), "pkg", "1", &bad, None).0);
    assert_eq!(reply.status, 500);
    assert_eq!(
        body(&reply)["error"],
        "Failed to parse version timing information"
    );
}

#[test]
fn an_old_download_is_passed_through() {
    let (action, log) = handle_npm_download(
        &Config::default(),
        &checker(),
        "@scope/pkg",
        "1.9.0",
        &metadata(),
        None,
    );
    match action {
        PackageAction::Proxy { url, headers } => {
            assert_eq!(url, "https://registry.npmjs.org/@scope/pkg/-/pkg-1.9.0.tgz");
            assert!(headers.is_empty());
        }
        _ => panic!("Expected a file"),
    }
    assert_eq!(log.len(), 1);
    assert_eq!(log[0].action, DelayAction::Allowed);
    assert_eq!(log[0].package_name, "@scope/pkg");
}

#[test]
fn a_young_download_is_replaced() {
    let (action, log) = handle_npm_download(
        &Config::default(),
        &checker(),
        "pkg",
        "2.0.0",
        &metadata(),
        None,
    );
    match action {
        PackageAction::Proxy { url, headers } => {
            assert_eq!(url, "https://registry.npmjs.org/pkg/-/pkg-1.10.0.tgz");
            assert_eq!(
                headers,
                [
                    ("X-Delay-Original-Version".to_string(), "2.0.0".to_string()),
                    ("X-Delay-Redirected-Version".to_string(), "1.10.0".to_string()),
                    (
                        "X-Delay-Reason".to_string(),
                        "Version too recent, auto-downgraded for security".to_string()
                    ),
                ]
            );
        }
        _ => panic!("Expected a file"),
    }
    assert_eq!(log.len(), 1);
    assert_eq!(log[0].action, DelayAction::Downgraded);
    assert_eq!(log[0].reason, "Version too recent, auto-downgraded for security");
}

#[test]
fn a_young_download_without_an_elder_is_refused() {
    let (action, log) =
        handle_npm_download(&Config::default(), &checker(), "pkg", "1.0.0", &young(), None);
    let reply = answer(action);
    assert_eq!(reply.status, 403);
    assert_eq!(
        body(&reply)["reason"],
        "Version was published within the last 3 day(s) and no older alternative is available"
    );
    assert!(body(&reply)["suggested_version"].is_null());
    assert_eq!(log[0].action, DelayAction::Denied);
    let (action, _) =
        handle_npm_download(&Config::default(), &checker(), "pkg", "7", &young(), None);
    let reply = answer(action);
    assert_eq!(reply.status, 404);
    assert_eq!(body(&reply)["error"], "Version not found in package metadata");
}
