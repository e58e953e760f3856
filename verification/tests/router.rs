use delay_mirror::config::Config;
use delay_mirror::gomod::GomodEndpoint;
use delay_mirror::json::Json;
use delay_mirror::reply::{Body, Reply};
use delay_mirror::router::{
    api_index, debug_fetch_reply, debug_gomod_reply, debug_gomod_url, debug_pypi_reply,
    debug_pypi_urls, debug_routes_reply, health_reply, invalid_configuration, method_not_allowed,
    not_found_reply, preview, route_request, usage_reply, with_cors, BuildInfo, Probe, Route,
};
use serde_json::Value;

/// The value that serde_json holds for the same JSON.
fn shown(json: &Json) -> Value {
    match json {
        Json::Null => Value::Null,
        Json::Bool(b) => Value::Bool(*b),
        Json::Number(n) => serde_json::from_str(n).unwrap(),
        Json::Str(s) => Value::String(s.clone()),
        Json::Array(items) => Value::Array(items.iter().map(shown).collect()),
        Json::Object(members) => Value::Object(
            members
                .iter()
                .map(|(name, value)| (name.clone(), shown(value)))
                .collect(),
        ),
    }
}

/// The JSON in the body of an answer.
fn body(reply: &Reply) -> Value {
    match &reply.body {
        Body::Json(json) => shown(json),
        other => panic!("Expected JSON, got {:?}", other),
    }
}

/// A header of an answer.
fn header<'a>(reply: &'a Reply, name: &str) -> Option<&'a str> {
    reply
        .headers
        .iter()
        .find(|(n, _)| n == name)
        .map(|(_, v)| v.as_str())
}

fn build(git_dirty: bool) -> BuildInfo {
    BuildInfo {
        version: "1.2.3".to_string(),
        git_sha: "abc1234".to_string(),
        git_dirty,
        git_branch: "main".to_string(),
        build_time: "2024-06-15T12:00:00Z".to_string(),
    }
}

#[test]
fn only_get_and_head_are_routed() {
    for method in ["POST", "PUT", "DELETE", "PATCH", "OPTIONS", "get"] {
        assert!(matches!(
            route_request(method, "/npm/lodash", false),
            Route::MethodNotAllowed
        ));
    }
    assert!(matches!(
        route_request("HEAD", "/npm/lodash", false),
        Route::NpmMetadata
    ));
    let reply = method_not_allowed();
    assert_eq!(reply.status, 405);
    assert_eq!(body(&reply)["error"], "Method Not Allowed");
    assert_eq!(body(&reply)["allowed_methods"][1], "HEAD");
}

#[test]
fn slashes_around_the_path_do_not_count() {
    assert!(matches!(route_request("GET", "", false), Route::Index));
    assert!(matches!(route_request("GET", "///", false), Route::Index));
    assert!(matches!(
        route_request("GET", "/health/", false),
        Route::Health
    ));
}

#[test]
fn debug_routes_need_the_debug_mode() {
    assert!(matches!(
        route_request("GET", "/debug/fetch", true),
        Route::DebugFetch
    ));
    assert!(matches!(
        route_request("GET", "/debug/routes", true),
        Route::DebugRoutes
    ));
    assert!(matches!(
        route_request("GET", "/debug/pypi", true),
        Route::DebugPypi
    ));
    assert!(matches!(
        route_request("GET", "/debug/gomod", true),
        Route::DebugGomod
    ));
    for path in ["/debug/fetch", "/debug/routes", "/debug/pypi", "/debug/gomod"] {
        assert!(matches!(
            route_request("GET", path, false),
            Route::NotFound { .. }
        ));
    }
}

#[test]
fn npm_paths_are_routed_by_their_length() {
    assert!(matches!(
        route_request("GET", "/npm/lodash", false),
        Route::NpmMetadata
    ));
    assert!(matches!(
        route_request("GET", "/npm/lodash/4.17.21", false),
        Route::NpmVersion
    ));
    assert!(matches!(
        route_request("GET", "/npm/a/b/c", false),
        Route::NotFound { .. }
    ));
    assert!(matches!(
        route_request("GET", "/dl/lodash@4.17.21", false),
        Route::NpmDownload
    ));
    assert!(matches!(
        route_request("GET", "/dl/@scope/pkg@1.0.0", false),
        Route::NpmDownload
    ));
}

#[test]
fn gomod_paths_are_routed_by_their_ending() {
    let route = |last: &str| route_request("GET", &format!("/gomod/github.com/a/b/@v/{}", last), false);
    assert!(matches!(route("list"), Route::Gomod(GomodEndpoint::List)));
    assert!(matches!(route("v1.0.0.info"), Route::Gomod(GomodEndpoint::Info)));
    assert!(matches!(route("v1.0.0.mod"), Route::Gomod(GomodEndpoint::Mod)));
    assert!(matches!(route("v1.0.0.zip"), Route::Gomod(GomodEndpoint::Zip)));
    assert!(matches!(route("v1.0.0"), Route::NotFound { .. }));
}

#[test]
fn pypi_paths_are_routed_by_their_second_piece() {
    assert!(matches!(route_request("GET", "/pypi", false), Route::PypiIndex));
    assert!(matches!(
        route_request("GET", "/pypi/simple/", false),
        Route::PypiIndex
    ));
    match route_request("GET", "/pypi/simple/Django/", false) {
        Route::PypiPackage { package } => assert_eq!(package, "Django"),
        _ => panic!("Expected a package"),
    }
    match route_request("GET", "/pypi/packages/a/b/x-1.0.tar.gz", false) {
        Route::PypiDownload { filename } => assert_eq!(filename, "x-1.0.tar.gz"),
        _ => panic!("Expected a download"),
    }
    assert!(matches!(
        route_request("GET", "/pypi/other", false),
        Route::NotFound { .. }
    ));
}

#[test]
fn a_bare_group_is_answered_with_its_usage() {
    for (group, example) in [
        ("npm", "/npm/axios"),
        ("dl", "/npm/axios"),
        ("gomod", "/gomod/github.com/gin-gonic/gin/@v/list"),
    ] {
        match route_request("GET", group, false) {
            Route::Usage { endpoint } => assert_eq!(endpoint, group),
            _ => panic!("Expected the usage of {}", group),
        }
        let reply = usage_reply(group);
        assert_eq!(reply.status, 200);
        assert_eq!(body(&reply)["endpoint"], group);
        assert_eq!(
            body(&reply)["usage"],
            format!("See available routes under /{}", group)
        );
        assert_eq!(body(&reply)["example"], example);
    }
}

#[test]
fn unknown_paths_are_not_found() {
    match route_request("GET", "/nope/x/", false) {
        Route::NotFound { path } => assert_eq!(path, "nope/x"),
        _ => panic!("Expected nothing found"),
    }
    let reply = not_found_reply("nope/x");
    assert_eq!(reply.status, 404);
    assert_eq!(body(&reply)["error"], "Not Found");
    assert_eq!(body(&reply)["path"], "/nope/x");
    assert_eq!(body(&reply)["hint"], "Visit / for API documentation");
}

#[test]
fn cross_origin_header_is_added_to_the_others() {
    let reply = with_cors(Reply::json(403, Json::object()).header("X-Delay-Reason", "young"));
    assert_eq!(header(&reply, "Access-Control-Allow-Origin"), Some("*"));
    assert_eq!(header(&reply, "X-Delay-Reason"), Some("young"));
}

#[test]
fn the_full_version_tells_a_dirty_build() {
    assert_eq!(build(false).full_version(), "1.2.3-abc1234+main");
    assert_eq!(build(true).full_version(), "1.2.3-dev.abc1234+main");
}

#[test]
fn the_index_lists_the_endpoints() {
    let reply = api_index(&build(false));
    assert_eq!(reply.status, 200);
    assert_eq!(header(&reply, "Content-Type"), Some("application/json"));
    assert_eq!(header(&reply, "Access-Control-Allow-Origin"), Some("*"));
    let json = body(&reply);
    assert_eq!(json["service"], "delay-mirror");
    assert_eq!(json["version"]["semver"], "1.2.3");
    assert_eq!(json["version"]["git"]["dirty"], false);
    assert_eq!(json["version"]["build_time"], "2024-06-15T12:00:00Z");
    assert_eq!(
        json["description"],
        "Delay-based security mirror for NPM / Go Modules / PyPI"
    );
    assert_eq!(json["endpoints"]["health"]["path"], "/health");
    assert_eq!(
        json["endpoints"]["npm"]["download"]["path"],
        "/dl/{package}@{version}"
    );
    assert_eq!(
        json["endpoints"]["gomod"]["go_mod"]["description"],
        "Get go.mod file"
    );
    assert_eq!(
        json["endpoints"]["pypi"]["package_list"]["path"],
        "/pypi/simple/{package}/"
    );
    assert_eq!(json["endpoints"]["pypi"]["download"]["method"], "GET");
}

#[test]
fn health_shows_the_configuration() {
    let config = Config::default();
    let json = body(&health_reply(&build(true), &config));
    assert_eq!(json["status"], "ok");
    assert_eq!(json["version"]["full"], "1.2.3-dev.abc1234+main");
    assert_eq!(json["config"]["delay_days"], 3);
    assert_eq!(json["config"]["npm_registry"], "https://registry.npmmirror.com");
    assert_eq!(json["config"]["pypi_json_api_base"], "https://pypi.org/pypi");
    assert_eq!(json["config"]["allowlist_enabled"], false);
    assert_eq!(json["config"].as_object().unwrap().len(), 10);
}

#[test]
fn an_invalid_configuration_is_reported() {
    let reply = invalid_configuration("delay days must be positive");
    assert_eq!(reply.status, 500);
    assert_eq!(body(&reply)["error"], "Invalid configuration");
    assert_eq!(body(&reply)["details"], "delay days must be positive");
}

#[test]
fn a_preview_is_cut_by_bytes() {
    assert_eq!(preview("abcdef", 3), "abc");
    assert_eq!(preview("ab", 3), "ab");
    assert_eq!(preview("aéb", 3), "aé");
}

#[test]
fn debug_pages_show_what_was_fetched() {
    let config = Config::default();
    assert_eq!(
        debug_pypi_urls(&config),
        (
            "https://pypi.org/simple/".to_string(),
            "https://pypi.org/simple/requests/".to_string(),
            "https://pypi.org/pypi/requests/json".to_string(),
        )
    );
    assert_eq!(
        debug_gomod_url(&config),
        "https://mirrors.aliyun.com/goproxy/github.com/gin-gonic/gin/@v/list"
    );
    let answered = Probe::Answered {
        status: 200,
        body_len: 12,
        preview: Some("hello".to_string()),
    };
    let plain = Probe::Answered {
        status: 404,
        body_len: 0,
        preview: None,
    };
    let json = body(&debug_pypi_reply(
        &config,
        &plain,
        &Probe::Failed("no route".to_string()),
        &answered,
    ));
    assert_eq!(json["pypi_simple_root"]["status"], 404);
    assert_eq!(json["pypi_simple_root"]["body_len"], 0);
    assert!(json["pypi_simple_root"].get("body_preview").is_none());
    assert_eq!(json["pypi_simple_pkg"]["error"], "no route");
    assert_eq!(json["pypi_json"]["body_preview"], "hello");
    let json = body(&debug_gomod_reply(&config, &Probe::NotSent));
    assert_eq!(json["gomod_list"]["error"], "failed to create request");
}

#[test]
fn debug_fetch_shows_the_answer_or_the_error() {
    let url = "https://registry.npmjs.org/lodash/-/lodash-4.17.21.tgz";
    let reply = debug_fetch_reply(
        url,
        Ok((
            200,
            vec![("etag".to_string(), "x".to_string())],
            3,
            "abc".to_string(),
        )),
    );
    assert_eq!(reply.status, 200);
    let json = body(&reply);
    assert_eq!(json["url"], url);
    assert_eq!(json["headers"]["etag"], "x");
    assert_eq!(json["body_len"], 3);
    assert_eq!(json["body_preview"], "abc");
    let reply = debug_fetch_reply(url, Err("timeout".to_string()));
    assert_eq!(reply.status, 500);
    assert_eq!(body(&reply)["error"], "Fetch failed: timeout");
}

#[test]
fn debug_routes_take_a_path_apart() {
    let json = body(&debug_routes_reply("dl/lodash@4.17.23"));
    assert_eq!(json["test_path"], "dl/lodash@4.17.23");
    assert_eq!(json["parts"][1], "lodash@4.17.23");
    assert_eq!(json["parts_0"], "dl");
    assert_eq!(json["parts_len"], 2);
    assert_eq!(json["matches_npm_or_dl"], true);
    assert_eq!(json["dispatch_npm_condition_download"], true);
}
