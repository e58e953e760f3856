use delay_mirror::config::Config;
use delay_mirror::delay_check::DelayChecker;
use delay_mirror::delay_logger::{DelayAction, DelayLogEntry};
use delay_mirror::fetch::Fetched;
use delay_mirror::json::Json;
use delay_mirror::npm::PackageAction;
use delay_mirror::reply::{Body, Reply};
use delay_mirror::router::BuildInfo;
use delay_mirror::server::{
    base_url, check_module_file, dl_handler, dl_request, filter_npm_metadata, fresh_metadata,
    gomod_handler, handle_gomod_info, handle_npm_metadata, handle_npm_version, health_reply, index,
    listen_port, module_of, name_tarball, npm_request, proxy_failure, pypi_handler, refuse_file,
    upstream_metadata, ModuleRequest, PypiRequest,
};
use delay_mirror::timestamp::Timestamp;
use serde_json::Value;

/// A JSON string.
fn text(s: &str) -> Json {
    Json::string(s)
}

/// A JSON object.
fn object(members: Vec<(&str, Json)>) -> Json {
    let mut result = Json::object();
    for (name, value) in members {
        result = result.put(name, value);
    }
    result
}

/// The value that serde_json holds for the same JSON.
fn shown(json: &Json) -> Value {
    match json {
        Json::Null => Value::Null,
        Json::Bool(b) => Value::Bool(*b),
        Json::Number(n) => serde_json::from_str(n).unwrap(),
        Json::Str(s) => Value::String(s.clone()),
        Json::Array(items) => Value::Array(items.iter().map(shown).collect()),
        Json::Object(members) => Value::Object(
            members
                .iter()
                .map(|(name, value)| (name.clone(), shown(value)))
                .collect(),
        ),
    }
}

/// The JSON in the body of an answer.
fn body(reply: &Reply) -> Value {
    match &reply.body {
        Body::Json(json) => shown(json),
        other => panic!("Expected JSON, got {:?}", other),
    }
}

/// A header of an answer.
fn header<'a>(reply: &'a Reply, name: &str) -> Option<&'a str> {
    reply
        .headers
        .iter()
        .find(|(n, _)| n == name)
        .map(|(_, v)| v.as_str())
}

/// A checker of three days at noon on 15 June 2024.
fn checker() -> DelayChecker {
    DelayChecker::at(
        Timestamp {
            secs: 1_718_452_800,
            nanos: 0,
        },
        3,
    )
}

fn build_info() -> BuildInfo {
    BuildInfo {
        version: "1.2.3".to_string(),
        git_sha: "abc1234".to_string(),
        git_dirty: false,
        git_branch: "main".to_string(),
        build_time: "2024-06-15T12:00:00Z".to_string(),
    }
}

fn package() -> Json {
    object(vec![
        ("dist-tags", object(vec![("latest", text("2.0.0"))])),
        (
            "time",
            object(vec![
                ("1.9.0", text("2024-01-01T00:00:00Z")),
                ("1.10.0", text("2023-12-01T00:00:00Z")),
                ("2.0.0", text("2024-06-14T00:00:00Z")),
            ]),
        ),
        (
            "versions",
            object(vec![
                ("1.9.0", Json::Null),
                ("1.10.0", Json::Null),
                ("2.0.0", Json::Null),
                ("undated", Json::Null),
            ]),
        ),
    ])
}

#[test]
fn the_server_index_lists_the_endpoints() {
    let reply = index(&build_info());
    assert_eq!(reply.status, 200);
    let json = body(&reply);
    assert_eq!(json["version"]["full"], "1.2.3-abc1234+main");
    assert_eq!(
        json["endpoints"]["npm"]["download"]["path"],
        "/dl/{package}@{version}.tgz"
    );
    assert_eq!(
        json["endpoints"]["health"]["description"],
        "Health check and configuration status"
    );
    assert!(json["endpoints"]["npm"].get("version").is_none());
    assert_eq!(json["endpoints"]["pypi"].as_object().unwrap().len(), 1);
}

#[test]
fn the_server_health_shows_the_configuration() {
    let json = body(&health_reply(&build_info(), &Config::default()));
    assert_eq!(json["status"], "ok");
    assert_eq!(json["config"]["pypi_simple_index"], "https://pypi.org/simple");
    assert_eq!(
        json["config"]["pypi_download_mirror"],
        "https://mirrors.aliyun.com/pypi/packages"
    );
    assert_eq!(json["config"].as_object().unwrap().len(), 12);
}

#[test]
fn the_port_is_the_one_that_is_set() {
    assert_eq!(listen_port(None), 8080);
    assert_eq!(listen_port(Some("9000")), 9000);
    assert_eq!(listen_port(Some("65536")), 8080);
    assert_eq!(listen_port(Some("http")), 8080);
}

#[test]
fn server_npm_paths() {
    assert_eq!(npm_request("lodash"), Ok(("lodash".to_string(), None)));
    assert_eq!(
        npm_request("lodash/4.17.21"),
        Ok(("lodash".to_string(), Some("4.17.21".to_string())))
    );
    let reply = npm_request("/").unwrap_err();
    assert_eq!(reply.status, 400);
    assert_eq!(body(&reply)["error"], "Missing package name");
}

#[test]
fn server_upstream_failures() {
    let reply = upstream_metadata("p", Fetched::Failed("refused".to_string())).unwrap_err();
    assert_eq!(reply.status, 502);
    assert_eq!(body(&reply)["error"], "Upstream fetch failed: refused");
    let answered = |status, body| Fetched::Answered { status, body };
    let reply = upstream_metadata("p", answered(404, Ok(Json::Null))).unwrap_err();
    assert_eq!(reply.status, 404);
    assert_eq!(body(&reply)["error"], "Upstream error for package: p");
    let reply = upstream_metadata("p", answered(200, Err("eof".to_string()))).unwrap_err();
    assert_eq!(reply.status, 502);
    assert_eq!(
        body(&reply)["error"],
        "Failed to parse upstream response: eof"
    );
    assert_eq!(upstream_metadata("p", answered(200, Ok(text("m")))), Ok(text("m")));
}

#[test]
fn kept_metadata_is_fresh_for_five_minutes() {
    assert_eq!(fresh_metadata(Some((text("m"), 299))), Some(text("m")));
    assert_eq!(fresh_metadata(Some((text("m"), 300))), None);
    assert_eq!(fresh_metadata(None), None);
}

#[test]
fn young_versions_are_dropped_and_undated_ones_kept() {
    let json = shown(&filter_npm_metadata(package(), &checker()));
    assert_eq!(
        json["versions"].as_object().unwrap().keys().collect::<Vec<_>>(),
        ["1.10.0", "1.9.0", "undated"]
    );
    assert_eq!(json["dist-tags"]["latest"], "1.10.0");
    assert_eq!(json["time"].as_object().unwrap().len(), 3);
}

#[test]
fn served_metadata_lists_old_versions_alone() {
    let version = |v: &str| {
        object(vec![(
            "dist",
            object(vec![("tarball", text(&format!("https://r.example/{}.tgz", v)))]),
        )])
    };
    let named = package().put("name", text("pkg")).put(
        "versions",
        object(vec![
            ("1.9.0", version("1.9.0")),
            ("1.10.0", version("1.10.0")),
            ("2.0.0", version("2.0.0")),
            ("undated", version("undated")),
        ]),
    );
    let reply = handle_npm_metadata(named, &checker(), "http://mirror.example");
    assert_eq!(reply.status, 200);
    assert_eq!(header(&reply, "X-Delay-Warning"), None);
    let json = body(&reply);
    assert_eq!(
        json["versions"].as_object().unwrap().keys().collect::<Vec<_>>(),
        ["1.10.0", "1.9.0"]
    );
    assert_eq!(json["dist-tags"]["latest"], "1.10.0");
    assert_eq!(json["time"], shown(package().get("time").unwrap()));
    assert_eq!(json["name"], "pkg");
    assert_eq!(
        json["versions"]["1.9.0"]["dist"]["tarball"],
        "http://mirror.example/dl/pkg@1.9.0"
    );
}

#[test]
fn served_metadata_warns_where_no_version_is_old_enough() {
    let young = object(vec![
        ("time", object(vec![("1.0.0", text("2024-06-14T00:00:00Z"))])),
        (
            "versions",
            object(vec![("1.0.0", Json::Null), ("undated", Json::Null)]),
        ),
    ]);
    let reply = handle_npm_metadata(young, &checker(), "");
    assert_eq!(reply.status, 200);
    assert_eq!(
        header(&reply, "X-Delay-Warning"),
        Some("All versions are recent")
    );
    assert!(body(&reply)["versions"].get("1.0.0").is_none());
    assert!(body(&reply)["versions"].get("undated").is_some());
    assert!(body(&reply)["time"].get("1.0.0").is_some());
}

#[test]
fn metadata_of_unknown_age_is_served_without_a_warning() {
    let versions = ("versions", object(vec![("1.0.0", Json::Null)]));
    let soon = object(vec![("1.0.0", text("soon"))]);
    for metadata in [
        object(vec![versions.clone()]),
        object(vec![("time", Json::object()), versions.clone()]),
        object(vec![("time", Json::Null), versions.clone()]),
        object(vec![("time", soon), versions]),
    ] {
        let reply = handle_npm_metadata(metadata.clone(), &checker(), "");
        assert_eq!(reply.status, 200);
        assert_eq!(header(&reply, "X-Delay-Warning"), None);
        assert_eq!(body(&reply), shown(&metadata));
    }
}

#[test]
fn the_server_names_itself_as_the_client_did() {
    assert_eq!(base_url(None, "localhost:8080"), "http://localhost:8080");
    assert_eq!(base_url(Some("https"), "m.example"), "https://m.example");
    assert_eq!(base_url(Some("https"), ""), "");
}

#[test]
fn an_old_latest_stays() {
    let old = package().put("dist-tags", object(vec![("latest", text("1.9.0"))]));
    let json = shown(&filter_npm_metadata(old, &checker()));
    assert_eq!(json["dist-tags"]["latest"], "1.9.0");
}

#[test]
fn metadata_without_times_is_left_alone() {
    let plain = object(vec![("versions", object(vec![("1.0.0", Json::Null)]))]);
    assert_eq!(filter_npm_metadata(plain.clone(), &checker()), plain);
}

/// What the lines of a log say was decided.
fn actions(log: &[DelayLogEntry]) -> Vec<DelayAction> {
    log.iter().map(|entry| entry.action).collect()
}

#[test]
fn server_npm_versions() {
    let config = Config::default();
    let handle = |version: &str, metadata: &Json| {
        handle_npm_version(&config, &checker(), "pkg", version, metadata, Some("10.0.0.1"))
    };
    let (reply, log) = handle("1.9.0", &package());
    assert_eq!(reply.status, 307);
    assert_eq!(
        header(&reply, "location"),
        Some("https://registry.npmjs.org/pkg/-/pkg-1.9.0.tgz")
    );
    assert_eq!(actions(&log), [DelayAction::Allowed]);
    let (reply, log) = handle("2.0.0", &package());
    assert_eq!(reply.status, 403);
    assert_eq!(body(&reply)["error"], "Version too recent for download");
    assert_eq!(body(&reply)["package"], "pkg");
    assert_eq!(body(&reply)["requested_version"], "2.0.0");
    assert_eq!(body(&reply)["suggested_version"], "1.10.0");
    assert_eq!(
        body(&reply)["publish_time"],
        "2024-06-14T00:00:00+00:00"
    );
    assert_eq!(
        body(&reply)["reason"],
        "Version was published within the last 3 day(s)"
    );
    assert_eq!(header(&reply, "X-Delay-Original-Version"), Some("2.0.0"));
    assert_eq!(header(&reply, "X-Delay-Suggested-Version"), Some("1.10.0"));
    assert_eq!(header(&reply, "X-Delay-Reason"), Some("Version too recent"));
    assert_eq!(actions(&log), [DelayAction::Denied, DelayAction::Downgraded]);
    assert_eq!(log[0].client_ip, Some("10.0.0.1".to_string()));
    let (reply, log) = handle("3.0.0", &package());
    assert_eq!(reply.status, 500);
    assert_eq!(
        body(&reply)["error"],
        "Version check error: Version '3.0.0' not found in metadata"
    );
    assert!(log.is_empty());
    let (reply, log) = handle("1", &object(vec![("time", Json::Null)]));
    assert_eq!(reply.status, 500);
    assert!(body(&reply)["error"]
        .as_str()
        .unwrap()
        .starts_with("Time parse error: "));
    assert!(log.is_empty());
}

#[test]
fn the_server_suggests_nothing_where_no_version_is_old_enough() {
    let young = object(vec![(
        "time",
        object(vec![("1.0.0", text("2024-06-14T00:00:00Z"))]),
    )]);
    let (reply, log) =
        handle_npm_version(&Config::default(), &checker(), "pkg", "1.0.0", &young, None);
    assert_eq!(reply.status, 403);
    assert!(body(&reply)["suggested_version"].is_null());
    assert_eq!(header(&reply, "X-Delay-Suggested-Version"), None);
    assert_eq!(actions(&log), [DelayAction::Denied]);
}

#[test]
fn server_tarball_paths() {
    let named = |package: &str, version: &str| Ok((package.to_string(), version.to_string()));
    assert_eq!(dl_request("lodash@4.17.21"), named("lodash", "4.17.21"));
    assert_eq!(dl_request("/lodash@4.17.21.tgz"), named("lodash", "4.17.21"));
    assert_eq!(dl_request("@scope/pkg@1.0.0"), named("@scope/pkg", "1.0.0"));
    assert_eq!(
        dl_request("x/my-pkg-1.2.3-beta.1.tgz"),
        named("my-pkg", "1.2.3-beta.1")
    );
    for path in ["lodash", "lodash@", "@4.17.21", ""] {
        let reply = dl_request(path).unwrap_err();
        assert_eq!(reply.status, 400);
        assert_eq!(body(&reply)["error"], "Invalid tarball filename format");
    }
}

#[test]
fn a_tarball_is_named_by_its_identifier_first() {
    let groups = Some(vec![
        Some("b-2.0.0.tgz".to_string()),
        Some("b".to_string()),
        Some("2.0.0".to_string()),
    ]);
    assert_eq!(
        name_tarball("a@1.0.0", &groups),
        Ok(("a".to_string(), "1.0.0".to_string()))
    );
    assert_eq!(
        name_tarball("b-2.0.0", &groups),
        Ok(("b".to_string(), "2.0.0".to_string()))
    );
    assert!(name_tarball("b", &Some(vec![Some("b".to_string()), None])).is_err());
    assert!(name_tarball("b", &None).is_err());
}

#[test]
fn server_tarballs_are_checked() {
    let config = Config::default();
    let ask = |path: &str| dl_handler(&config, &checker(), path, &package(), None);
    match ask("lodash@1.9.0") {
        (PackageAction::Proxy { url, headers }, log) => {
            assert_eq!(url, "https://registry.npmjs.org/lodash/-/lodash-1.9.0.tgz");
            assert!(headers.is_empty());
            assert_eq!(actions(&log), [DelayAction::Allowed]);
        }
        _ => panic!("Expected a file"),
    }
    match ask("lodash-2.0.0.tgz") {
        (PackageAction::Proxy { url, headers }, log) => {
            assert_eq!(url, "https://registry.npmjs.org/lodash/-/lodash-1.10.0.tgz");
            assert_eq!(
                headers[..2],
                [
                    ("X-Delay-Original-Version".to_string(), "2.0.0".to_string()),
                    ("X-Delay-Redirected-Version".to_string(), "1.10.0".to_string()),
                ]
            );
            assert_eq!(actions(&log), [DelayAction::Downgraded]);
        }
        _ => panic!("Expected a file"),
    }
    match ask("lodash") {
        (PackageAction::Answer(reply), log) => {
            assert_eq!(reply.status, 400);
            assert!(log.is_empty());
        }
        _ => panic!("Expected an answer"),
    }
    match ask("lodash@7.0.0") {
        (PackageAction::Answer(reply), log) => {
            assert_eq!(reply.status, 404);
            assert!(log.is_empty());
        }
        _ => panic!("Expected an answer"),
    }
    let young = object(vec![(
        "time",
        object(vec![("1.0.0", text("2024-06-14T00:00:00Z"))]),
    )]);
    match dl_handler(&config, &checker(), "lodash@1.0.0", &young, None) {
        (PackageAction::Answer(reply), log) => {
            assert_eq!(reply.status, 403);
            assert_eq!(actions(&log), [DelayAction::Denied]);
        }
        _ => panic!("Expected an answer"),
    }
    match dl_handler(&config, &checker(), "lodash@1.0.0", &Json::object(), None) {
        (PackageAction::Answer(reply), _) => assert_eq!(reply.status, 500),
        _ => panic!("Expected an answer"),
    }
}

#[test]
fn server_gomod_paths() {
    let config = Config::default();
    let answer = |path: &str| match gomod_handler(&config, path) {
        ModuleRequest::Answer(reply) => reply,
        _ => panic!("Expected an answer to {}", path),
    };
    let reply = answer("github.com/a/b/@latest");
    assert_eq!(reply.status, 307);
    assert_eq!(
        header(&reply, "location"),
        Some("https://mirrors.aliyun.com/goproxy/github.com/a/b/@latest")
    );
    let reply = answer("github.com/a/b/@v");
    assert_eq!(reply.status, 400);
    assert_eq!(body(&reply)["error"], "Missing version information");
    let reply = answer("github.com/a/b/@v/v1.0.0");
    assert_eq!(reply.status, 400);
    assert_eq!(
        body(&reply)["error"],
        "Unknown Go module endpoint: v1.0.0"
    );
    match gomod_handler(&config, "github.com/a/b/@v/list") {
        ModuleRequest::Proxy { url } => assert_eq!(
            url,
            "https://mirrors.aliyun.com/goproxy/github.com/a/b/@v/list"
        ),
        _ => panic!("Expected the list"),
    }
    for (kind, place, elsewhere) in [
        ("mod", "https://mirrors.aliyun.com/goproxy", false),
        ("zip", "https://proxy.golang.org", true),
    ] {
        match gomod_handler(&config, &format!("github.com/a/b/@v/v1.0.0.{}", kind)) {
            ModuleRequest::File {
                info_url,
                url,
                redirect,
                module,
                version,
            } => {
                assert_eq!(
                    info_url,
                    "https://mirrors.aliyun.com/goproxy/github.com/a/b/@v/v1.0.0.info"
                );
                assert_eq!(url, format!("{}/github.com/a/b/@v/v1.0.0.{}", place, kind));
                assert_eq!(redirect, elsewhere);
                assert_eq!(module, "github.com/a/b");
                assert_eq!(version, "v1.0.0");
            }
            _ => panic!("Expected a file of the module"),
        }
    }
    match gomod_handler(&config, "github.com/a/b/@v/v1.0.0.info") {
        ModuleRequest::Info { url, module, version } => {
            assert_eq!(
                url,
                "https://mirrors.aliyun.com/goproxy/github.com/a/b/@v/v1.0.0.info"
            );
            assert_eq!(module, "github.com/a/b");
            assert_eq!(version, "v1.0.0");
        }
        _ => panic!("Expected the info file"),
    }
}

#[test]
fn modules_of_paths() {
    assert_eq!(module_of("github.com/a/b/@v/v1.0.0.zip"), "github.com/a/b");
    assert_eq!(module_of("github.com/a/b/@v/list"), "github.com/a/b");
    assert_eq!(module_of("/github.com/a/b/@latest"), "github.com/a/b");
    assert_eq!(module_of("github.com/a/b"), "github.com/a/b");
    assert_eq!(module_of(""), "");
}

#[test]
fn module_files_are_checked_by_the_info_file() {
    let config = Config::default();
    let check = |fetched| check_module_file(&config, &checker(), "m", "v1.0.0", fetched, None);
    let answered = |json| {
        check(Fetched::Answered {
            status: 200,
            body: Ok(json),
        })
    };
    let info = |time: &str| object(vec![("Time", text(time)), ("Version", text("v1.0.0"))]);
    let (refused, log) = answered(info("2024-01-01T00:00:00Z"));
    assert_eq!(refused, None);
    assert_eq!(actions(&log), [DelayAction::Allowed]);
    assert_eq!(log[0].package_name, "m");
    let (refused, log) = answered(info("2024-06-14T00:00:00Z"));
    let reply = refused.unwrap();
    assert_eq!(reply.status, 403);
    assert_eq!(body(&reply)["error"], "Version too recent for access");
    assert_eq!(body(&reply)["module"], "m");
    assert_eq!(body(&reply)["requested_version"], "v1.0.0");
    assert_eq!(
        body(&reply)["reason"],
        "Version was published within the last 3 day(s)"
    );
    assert_eq!(body(&reply)["publish_time"], "2024-06-14T00:00:00Z");
    assert_eq!(
        body(&reply)["suggestion"],
        "Try again later or use an older version"
    );
    assert_eq!(actions(&log), [DelayAction::Denied]);
    for unknown in [info("unknown"), Json::Null] {
        let (refused, log) = answered(unknown);
        let reply = refused.unwrap();
        assert_eq!(reply.status, 502);
        assert_eq!(body(&reply)["error"], "Unable to determine version age");
        assert!(log.is_empty());
    }
    for (fetched, status, error) in [
        (
            Fetched::Answered {
                status: 404,
                body: Ok(info("2024-01-01T00:00:00Z")),
            },
            404,
            "Upstream error",
        ),
        (
            Fetched::Answered {
                status: 200,
                body: Err("eof".to_string()),
            },
            502,
            "Failed to parse response: eof",
        ),
        (
            Fetched::Failed("refused".to_string()),
            502,
            "Upstream fetch failed: refused",
        ),
    ] {
        let (refused, log) = check(fetched);
        let reply = refused.unwrap();
        assert_eq!(reply.status, status);
        assert_eq!(body(&reply)["error"], error);
        assert!(log.is_empty());
    }
}

#[test]
fn a_module_file_is_judged_by_the_time_that_was_read() {
    let config = Config::default();
    let fetched = || Fetched::Answered {
        status: 200,
        body: Ok(object(vec![("Time", text("then"))])),
    };
    let judge = |named| refuse_file(&config, &checker(), "m", "v1.0.0", fetched(), named);
    let cutoff = Timestamp {
        secs: 1_718_193_600,
        nanos: 0,
    };
    let after = Timestamp {
        secs: 1_718_193_600,
        nanos: 1,
    };
    assert_eq!(judge(Some(cutoff)), None);
    assert_eq!(judge(Some(after)).unwrap().status, 403);
    assert_eq!(judge(None).unwrap().status, 502);
}

#[test]
fn server_gomod_info() {
    let config = Config::default();
    let info = |time: &str| object(vec![("Time", text(time)), ("Version", text("v1.0.0"))]);
    let handle =
        |fetched| handle_gomod_info(&config, &checker(), "m", "v1.0.0", fetched, None).0;
    let logged = |json| {
        let fetched = Fetched::Answered {
            status: 200,
            body: Ok(json),
        };
        actions(&handle_gomod_info(&config, &checker(), "m", "v1.0.0", fetched, None).1)
    };
    assert_eq!(logged(info("2024-01-01T00:00:00Z")), [DelayAction::Allowed]);
    assert_eq!(logged(info("2024-06-14T00:00:00Z")), [DelayAction::Denied]);
    assert!(logged(info("unknown")).is_empty());
    let answered = |json| {
        handle(Fetched::Answered {
            status: 200,
            body: Ok(json),
        })
    };
    let reply = answered(info("2024-01-01T00:00:00Z"));
    assert_eq!(reply.status, 200);
    assert_eq!(body(&reply)["Version"], "v1.0.0");
    let reply = answered(info("2024-06-14T08:00:00+08:00"));
    assert_eq!(reply.status, 403);
    assert_eq!(body(&reply)["error"], "Version too recent for access");
    assert_eq!(body(&reply)["module"], "m");
    assert_eq!(body(&reply)["publish_time"], "2024-06-14T08:00:00+08:00");
    assert_eq!(
        body(&reply)["suggestion"],
        "Try again later or use an older version"
    );
    assert_eq!(answered(info("unknown")).status, 200);
    assert_eq!(answered(Json::Null).status, 200);
    let reply = handle(Fetched::Answered {
        status: 410,
        body: Ok(Json::Null),
    });
    assert_eq!(reply.status, 410);
    assert_eq!(body(&reply)["error"], "Upstream error");
    let reply = handle(Fetched::Answered {
        status: 200,
        body: Err("eof".to_string()),
    });
    assert_eq!(reply.status, 502);
    assert_eq!(body(&reply)["error"], "Failed to parse response: eof");
    let reply = handle(Fetched::Failed("refused".to_string()));
    assert_eq!(reply.status, 502);
    assert_eq!(body(&reply)["error"], "Upstream fetch failed: refused");
}

#[test]
fn server_pypi_paths() {
    assert!(matches!(pypi_handler("simple/"), PypiRequest::Index));
    match pypi_handler("simple/My_Pkg/") {
        PypiRequest::Package { package } => assert_eq!(package, "My_Pkg"),
        _ => panic!("Expected a package"),
    }
    match pypi_handler("packages/ab/cd/x-1.0.tar.gz") {
        PypiRequest::Download { path } => assert_eq!(path, "ab/cd/x-1.0.tar.gz"),
        _ => panic!("Expected a download"),
    }
    match pypi_handler("other/x") {
        PypiRequest::Answer(reply) => {
            assert_eq!(reply.status, 400);
            assert_eq!(body(&reply)["error"], "Unknown PyPI endpoint: other");
        }
        _ => panic!("Expected an error"),
    }
    match pypi_handler("//") {
        PypiRequest::Answer(reply) => assert_eq!(body(&reply)["error"], "Missing path"),
        _ => panic!("Expected an error"),
    }
}

#[test]
fn proxy_failures() {
    let reply = proxy_failure(true, "cut");
    assert_eq!(reply.status, 502);
    assert_eq!(body(&reply)["error"], "Failed to read response body: cut");
    let reply = proxy_failure(false, "refused");
    assert_eq!(reply.status, 502);
    assert_eq!(body(&reply)["error"], "Upstream fetch failed: refused");
}
