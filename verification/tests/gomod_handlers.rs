use delay_mirror::config::Config;
use delay_mirror::delay_check::DelayChecker;
use delay_mirror::delay_logger::{DelayAction, DelayLogger};
use delay_mirror::gomod::{
    build_forbidden_response, build_upstream_url, cache_key, check_info, check_pseudo_version,
    check_time, escape_module_path, extract_client_ip, filter_list, fresh_info,
    handle_gomod_request, info_found, info_url, is_left_out, list_error_reply, parse_gomod_path,
    pseudo_version_text, serve_text, zip_fallback_reply, zip_is_served, DelayCheckResult,
    GomodEndpoint, ModuleAction,
};
use delay_mirror::json::Json;
use delay_mirror::reply::{Body, Reply};
use delay_mirror::timestamp::Timestamp;
use serde_json::Value;

/// A JSON string.
fn text(s: &str) -> Json {
    Json::string(s)
}

/// A JSON object.
fn object(members: Vec<(&str, Json)>) -> Json {
    let mut result = Json::object();
    for (name, value) in members {
        result = result.put(name, value);
    }
    result
}

/// The value that serde_json holds for the same JSON.
fn shown(json: &Json) -> Value {
    match json {
        Json::Null => Value::Null,
        Json::Bool(b) => Value::Bool(*b),
        Json::Number(n) => serde_json::from_str(n).unwrap(),
        Json::Str(s) => Value::String(s.clone()),
        Json::Array(items) => Value::Array(items.iter().map(shown).collect()),
        Json::Object(members) => Value::Object(
            members
                .iter()
                .map(|(name, value)| (name.clone(), shown(value)))
                .collect(),
        ),
    }
}

/// The JSON in the body of an answer.
fn body(reply: &Reply) -> Value {
    match &reply.body {
        Body::Json(json) => shown(json),
        other => panic!("Expected JSON, got {:?}", other),
    }
}

/// A header of an answer.
fn header<'a>(reply: &'a Reply, name: &str) -> Option<&'a str> {
    reply
        .headers
        .iter()
        .find(|(n, _)| n == name)
        .map(|(_, v)| v.as_str())
}

/// A checker of three days at noon on 15 June 2024.
fn checker() -> DelayChecker {
    DelayChecker::at(
        Timestamp {
            secs: 1_718_452_800,
            nanos: 0,
        },
        3,
    )
}

#[test]
fn the_answer_helpers_read_what_was_put() {
    let reply = Reply::json(200, object(vec![("a", text("b"))])).header("H", "v");
    assert_eq!(body(&reply)["a"], "b");
    assert_eq!(header(&reply, "H"), Some("v"));
}

#[test]
fn a_module_path_without_capitals_stays_as_it_is() {
    assert_eq!(
        escape_module_path("github.com/gin-gonic/gin"),
        "github.com/gin-gonic/gin"
    );
}

#[test]
fn escaping_twice_changes_nothing_more() {
    for module in ["github.com/Azure/azure-sdk", "A", "testA", "aBC"] {
        let once = escape_module_path(module);
        assert_eq!(escape_module_path(&once), once);
    }
}

#[test]
fn a_capital_beyond_ascii_is_marked() {
    assert_eq!(escape_module_path("x/É"), "x/!É");
}

#[test]
fn the_moment_of_a_pseudo_version_is_spelled_out() {
    assert_eq!(
        pseudo_version_text("v0.0.0-20240101120000-abc123def456"),
        Some("2024-01-01T12:00:00Z".to_string())
    );
    assert_eq!(
        pseudo_version_text("v1.2.4-0.20240101120000-abc123def456"),
        Some("2024-01-01T12:00:00Z".to_string())
    );
    assert_eq!(pseudo_version_text("v1.2.3-beta.1"), None);
    assert_eq!(pseudo_version_text("v1.2.3"), None);
}

#[test]
fn a_pseudo_version_is_checked_by_its_own_moment() {
    assert_eq!(
        check_pseudo_version(&checker(), "v0.0.0-20240612120000-abc123def456"),
        Some(DelayCheckResult::Allowed {
            info_body: String::new()
        })
    );
    assert_eq!(
        check_pseudo_version(&checker(), "v0.0.0-20240612120001-abc123def456"),
        Some(DelayCheckResult::Denied {
            publish_time: Timestamp {
                secs: 1_718_193_601,
                nanos: 0
            }
        })
    );
    assert_eq!(check_pseudo_version(&checker(), "v1.0.0"), None);
    assert_eq!(
        check_pseudo_version(&checker(), "v0.0.0-20249912120001-abc123def456"),
        None
    );
}

#[test]
fn a_version_is_checked_by_its_info_file() {
    let info = "{}".to_string();
    assert_eq!(
        check_info(&checker(), "2024-06-12T12:00:00Z", info.clone()),
        Ok(DelayCheckResult::Allowed {
            info_body: info.clone()
        })
    );
    assert!(matches!(
        check_info(&checker(), "2024-06-12T12:00:00.000000001Z", info.clone()),
        Ok(DelayCheckResult::Denied { .. })
    ));
    assert_eq!(
        check_info(&checker(), "yesterday", info),
        Err("Invalid timestamp format".to_string())
    );
    assert_eq!(
        check_time(
            &checker(),
            Timestamp {
                secs: 1_718_452_800,
                nanos: 0
            },
            String::new()
        ),
        DelayCheckResult::Denied {
            publish_time: Timestamp {
                secs: 1_718_452_800,
                nanos: 0
            }
        }
    );
}

#[test]
fn info_files_are_kept_for_thirty_seconds() {
    assert_eq!(cache_key("github.com/a/b", "v1.0.0"), "github.com/a/b@v1.0.0");
    assert_eq!(
        fresh_info(Some(("x".to_string(), 29))),
        Some("x".to_string())
    );
    assert_eq!(fresh_info(Some(("x".to_string(), 30))), None);
    assert_eq!(fresh_info(None), None);
}

#[test]
fn info_files_are_found_under_the_escaped_path() {
    assert_eq!(
        info_url("github.com/Azure/sdk", "v1.0.0", &Config::default()),
        "https://mirrors.aliyun.com/goproxy/github.com/!azure/sdk/@v/v1.0.0.info"
    );
    assert_eq!(info_found(200), Ok(true));
    assert_eq!(info_found(404), Ok(false));
    assert_eq!(info_found(500), Err("Upstream error: 500".to_string()));
}

#[test]
fn the_client_is_known_by_the_first_readable_header() {
    let ip = Some("1.2.3.4".to_string());
    let other = Some("5.6.7.8".to_string());
    assert_eq!(extract_client_ip(Ok(ip.clone()), Ok(other.clone())), ip);
    assert_eq!(extract_client_ip(Ok(None), Ok(other.clone())), None);
    assert_eq!(extract_client_ip(Err(()), Ok(other.clone())), other);
    assert_eq!(extract_client_ip(Err(()), Err(())), None);
}

#[test]
fn gomod_paths_name_module_and_version() {
    assert_eq!(
        parse_gomod_path("/gomod/github.com/a/b/@v/v1.0.0.info", GomodEndpoint::Info),
        Ok(("github.com/a/b".to_string(), "v1.0.0".to_string()))
    );
    assert_eq!(
        parse_gomod_path("/gomod/github.com/a/b/@v/list", GomodEndpoint::List),
        Ok(("github.com/a/b".to_string(), "list".to_string()))
    );
    assert_eq!(
        parse_gomod_path("/gomod/a/@v/v1.zip", GomodEndpoint::Zip),
        Err("Invalid Go module path format".to_string())
    );
}

#[test]
fn upstream_addresses_of_a_module() {
    let config = Config::default();
    assert_eq!(
        build_upstream_url("github.com/a/b", "v1", &config, GomodEndpoint::Mod),
        "https://mirrors.aliyun.com/goproxy/github.com/a/b/@v/v1.mod"
    );
    assert_eq!(
        build_upstream_url("github.com/a/b", "v1", &config, GomodEndpoint::Zip),
        "https://proxy.golang.org/github.com/a/b/@v/v1.zip"
    );
}

#[test]
fn a_withheld_module_version_is_answered_and_logged() {
    let (reply, entry) = build_forbidden_response(
        "github.com/a/b",
        "v1.0.0",
        &Timestamp {
            secs: 1_718_193_601,
            nanos: 0,
        },
        &checker(),
        &DelayLogger::new(),
        Some("10.0.0.1"),
    );
    assert_eq!(reply.status, 404);
    let json = body(&reply);
    assert_eq!(json["error"], "Version too recent for access");
    assert_eq!(json["module"], "github.com/a/b");
    assert_eq!(json["requested_version"], "v1.0.0");
    assert_eq!(
        json["reason"],
        "Version was published within the last 3 day(s)"
    );
    assert_eq!(json["publish_time"], "2024-06-12T12:00:01+00:00");
    assert_eq!(json["suggestion"], "Try again later or use an older version");
    assert_eq!(header(&reply, "X-Delay-Original-Version"), Some("v1.0.0"));
    assert_eq!(
        header(&reply, "X-Delay-Publish-Time"),
        Some("2024-06-12T12:00:01+00:00")
    );
    assert_eq!(header(&reply, "Content-Type"), Some("application/json"));
    assert_eq!(entry.action, DelayAction::Denied);
    assert_eq!(entry.package_name, "github.com/a/b");
    assert_eq!(entry.client_ip, Some("10.0.0.1".to_string()));
}

fn handle(check: DelayCheckResult, endpoint: GomodEndpoint) -> (ModuleAction, usize) {
    let (action, log) = handle_gomod_request(
        check,
        "github.com/a/b",
        "v1.0.0",
        &Config::default(),
        &checker(),
        endpoint,
        None,
    );
    (action, log.len())
}

#[test]
fn a_zip_comes_from_one_of_two_places() {
    let allowed = DelayCheckResult::Allowed {
        info_body: "{}".to_string(),
    };
    match handle(allowed, GomodEndpoint::Zip) {
        (ModuleAction::ServeZip { primary_url, fallback_url }, 1) => {
            assert_eq!(
                primary_url,
                "https://proxy.golang.org/github.com/a/b/@v/v1.0.0.zip"
            );
            assert_eq!(
                fallback_url,
                "https://mirrors.aliyun.com/goproxy/github.com/a/b/@v/v1.0.0.zip"
            );
        }
        _ => panic!("Expected a zip"),
    }
    assert!(zip_is_served(Some(200)));
    assert!(!zip_is_served(Some(404)));
    assert!(!zip_is_served(None));
    assert!(zip_fallback_reply(Ok(200)).is_none());
    let reply = zip_fallback_reply(Ok(404)).unwrap();
    assert_eq!(reply.status, 404);
    assert_eq!(body(&reply)["error"], "Upstream registry error");
    assert_eq!(body(&reply)["status"], 404);
    let reply = zip_fallback_reply(Err("timeout".to_string())).unwrap();
    assert_eq!(reply.status, 502);
}

#[test]
fn a_kept_info_file_answers_for_itself_only() {
    let allowed = || DelayCheckResult::Allowed {
        info_body: "{\"Version\":\"v1.0.0\"}".to_string(),
    };
    match handle(allowed(), GomodEndpoint::Info) {
        (ModuleAction::Answer(reply), 1) => {
            assert_eq!(reply.status, 200);
            assert_eq!(header(&reply, "Content-Type"), Some("application/json"));
            assert!(matches!(&reply.body, Body::Text(s) if s == "{\"Version\":\"v1.0.0\"}"));
        }
        _ => panic!("Expected the info file"),
    }
    match handle(allowed(), GomodEndpoint::Mod) {
        (ModuleAction::Serve { url }, 1) => assert_eq!(
            url,
            "https://mirrors.aliyun.com/goproxy/github.com/a/b/@v/v1.0.0.mod"
        ),
        _ => panic!("Expected the module file"),
    }
    let unread = DelayCheckResult::Allowed {
        info_body: String::new(),
    };
    match handle(unread, GomodEndpoint::Info) {
        (ModuleAction::Serve { url }, 1) => assert_eq!(
            url,
            "https://mirrors.aliyun.com/goproxy/github.com/a/b/@v/v1.0.0.info"
        ),
        _ => panic!("Expected the info file"),
    }
}

#[test]
fn a_denied_version_is_not_fetched() {
    for endpoint in [GomodEndpoint::Info, GomodEndpoint::Mod, GomodEndpoint::Zip] {
        let denied = DelayCheckResult::Denied {
            publish_time: Timestamp {
                secs: 1_718_452_800,
                nanos: 0,
            },
        };
        match handle(denied, endpoint) {
            (ModuleAction::Answer(reply), 1) => assert_eq!(reply.status, 404),
            _ => panic!("Expected an answer"),
        }
    }
}

#[test]
fn a_missing_version_is_reported() {
    match handle(DelayCheckResult::NotFound, GomodEndpoint::Info) {
        (ModuleAction::Answer(reply), 0) => {
            assert_eq!(reply.status, 404);
            assert_eq!(body(&reply)["error"], "Version not found");
            assert_eq!(body(&reply)["version"], "v1.0.0");
        }
        _ => panic!("Expected an answer"),
    }
    match handle(DelayCheckResult::UpstreamError(503), GomodEndpoint::Info) {
        (ModuleAction::Answer(reply), 0) => {
            assert_eq!(reply.status, 503);
            assert_eq!(body(&reply)["status"], 503);
        }
        _ => panic!("Expected an answer"),
    }
}

#[test]
fn the_list_hides_denied_versions() {
    let versions: Vec<String> = ["v1.0.0", "v1.1.0", "v1.2.0"]
        .iter()
        .map(|v| v.to_string())
        .collect();
    let (reply, log) = filter_list("github.com/a/b", &versions, &vec![false, true, false], 3);
    assert_eq!(reply.status, 200);
    assert!(matches!(&reply.body, Body::Text(s) if s == "v1.0.0\nv1.2.0"));
    assert_eq!(
        header(&reply, "Content-Type"),
        Some("text/plain; charset=utf-8")
    );
    assert_eq!(
        header(&reply, "X-Delay-Warning"),
        Some("Go Modules list endpoint has been filtered by delay policy. Some recent versions may be hidden.")
    );
    assert_eq!(log.len(), 1);
    assert_eq!(log[0].original_version, "v1.1.0");
    assert_eq!(log[0].client_ip, None);
}

#[test]
fn a_list_that_cannot_be_had() {
    assert!(list_error_reply("github.com/a/b", 200).is_none());
    let reply = list_error_reply("github.com/a/b", 404).unwrap();
    assert_eq!(reply.status, 404);
    assert_eq!(body(&reply)["version"], "list");
    let reply = list_error_reply("github.com/a/b", 500).unwrap();
    assert_eq!(reply.status, 502);
    assert_eq!(body(&reply)["status"], 500);
}

#[test]
fn module_files_have_their_own_type_and_patience() {
    let reply = serve_text(GomodEndpoint::Mod, "module x".to_string());
    assert_eq!(
        header(&reply, "Content-Type"),
        Some("text/plain; charset=utf-8")
    );
    assert_eq!(GomodEndpoint::Zip.timeout_ms(), 30000);
    assert_eq!(GomodEndpoint::List.timeout_ms(), 10000);
    assert_eq!(GomodEndpoint::Info.timeout_ms(), 5000);
}

#[test]
fn only_denied_versions_are_left_out() {
    let denied = DelayCheckResult::Denied {
        publish_time: Timestamp { secs: 0, nanos: 0 },
    };
    assert!(is_left_out(&Ok(denied)));
    assert!(!is_left_out(&Ok(DelayCheckResult::NotFound)));
    assert!(!is_left_out(&Ok(DelayCheckResult::UpstreamError(500))));
    assert!(!is_left_out(&Err("refused".to_string())));
}
