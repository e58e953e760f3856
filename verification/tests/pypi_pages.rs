use delay_mirror::config::Config;
use delay_mirror::delay_check::DelayChecker;
use delay_mirror::delay_logger::DelayAction;
use delay_mirror::fetch::{Fetched, MetadataFetch};
use delay_mirror::json::Json;
use delay_mirror::pypi::{
    self, check_digest, download_with_hash_verification, fetch_metadata_parallel,
    fetch_pypi_release_info, file_request, filter_recent_versions_html, hash_failure,
    list_failure, list_urls, map_upstream_error, request_id, simple_index_url, ExtraFetch,
    FileAction, PageFetch, RequestContext,
};
use delay_mirror::pypi_handler::{
    self, build_sdist_filename, download_request, extract_filename_from_path,
    normalize_package_name, parse_package_filename, redirect_filename, release_info,
    release_info_url, DownloadPlan,
};
use delay_mirror::reply::{Body, Reply};
use delay_mirror::timestamp::Timestamp;
use serde_json::Value;

/// A JSON string.
fn text(s: &str) -> Json {
    Json::string(s)
}

/// A JSON object.
fn object(members: Vec<(&str, Json)>) -> Json {
    let mut result = Json::object();
    for (name, value) in members {
        result = result.put(name, value);
    }
    result
}

/// The value that serde_json holds for the same JSON.
fn shown(json: &Json) -> Value {
    match json {
        Json::Null => Value::Null,
        Json::Bool(b) => Value::Bool(*b),
        Json::Number(n) => serde_json::from_str(n).unwrap(),
        Json::Str(s) => Value::String(s.clone()),
        Json::Array(items) => Value::Array(items.iter().map(shown).collect()),
        Json::Object(members) => Value::Object(
            members
                .iter()
                .map(|(name, value)| (name.clone(), shown(value)))
                .collect(),
        ),
    }
}

/// The JSON in the body of an answer.
fn body(reply: &Reply) -> Value {
    match &reply.body {
        Body::Json(json) => shown(json),
        other => panic!("Expected JSON, got {:?}", other),
    }
}

/// A header of an answer.
fn header<'a>(reply: &'a Reply, name: &str) -> Option<&'a str> {
    reply
        .headers
        .iter()
        .find(|(n, _)| n == name)
        .map(|(_, v)| v.as_str())
}

/// A checker of three days at noon on 15 June 2024.
fn checker() -> DelayChecker {
    DelayChecker::at(
        Timestamp {
            secs: 1_718_452_800,
            nanos: 0,
        },
        3,
    )
}

/// A file of a release.
fn file(name: &str, time: &str) -> Json {
    object(vec![
        ("filename", text(name)),
        ("upload_time", text(time)),
        ("url", text(&format!("https://files.example/{}", name))),
    ])
}

/// A project with two old releases and a young one.
fn project() -> Json {
    object(vec![(
        "releases",
        object(vec![
            (
                "1.9.0",
                Json::Array(vec![file("pkg-1.9.0.tar.gz", "2024-01-01T00:00:00")]),
            ),
            (
                "1.10.0",
                Json::Array(vec![
                    file("pkg-1.10.0.tar.gz", "2023-12-01T00:00:00").put(
                        "sha256_digest",
                        text("ba7816bf8f01cfea414140de5dae2223b00361a396177a9cb410ff61f20015ad"),
                    ),
                    file("pkg-1.10.0-py3-none-any.whl", "2023-12-01T00:00:00"),
                ]),
            ),
            (
                "2.0.0",
                Json::Array(vec![
                    file("pkg-2.0.0.tar.gz", "2024-06-14T00:00:00"),
                    file("pkg-2.0.0-py3-none-any.whl", "2024-06-14T00:00:00"),
                ]),
            ),
        ]),
    )])
}

/// A project with a young release only.
fn new_project() -> Json {
    object(vec![(
        "releases",
        object(vec![(
            "1.0.0",
            Json::Array(vec![file("pkg-1.0.0.tar.gz", "2024-06-15T00:00:00")]),
        )]),
    )])
}

const PAGE: &str = "<html><title>Links for pkg</title>\n\
    <a href=\"/p/pkg-1.9.0.tar.gz#sha256=aa\" data-requires-python=\"&gt;=3.8\">pkg-1.9.0.tar.gz</a>\n\
    <a href=\"/p/pkg-2.0.0.tar.gz\">pkg-2.0.0.tar.gz</a>\n</html>";

#[test]
fn normalizing_twice_changes_nothing_more() {
    for name in ["Django", "a__b..c--d", "-x-", "É_e"] {
        let once = normalize_package_name(name);
        assert_eq!(normalize_package_name(&once), once);
    }
    assert_eq!(normalize_package_name("a__B..c--D"), "a-b-c-d");
    assert_eq!(normalize_package_name("É_e"), "é-e");
}

#[test]
fn a_source_file_name_is_read_back() {
    for (package, version) in [("requests", "2.28.0"), ("my-package", "1.0.0rc1")] {
        assert_eq!(
            parse_package_filename(&build_sdist_filename(package, version)),
            Some((package.to_string(), version.to_string()))
        );
    }
}

#[test]
fn wheels_with_odd_tags_are_not_read() {
    assert_eq!(parse_package_filename("p-1.0-py3-none-a?y.whl"), None);
    assert_eq!(
        parse_package_filename("p-1.0-py3-none-a.?.whl"),
        Some(("p".to_string(), "1.0".to_string()))
    );
    assert_eq!(parse_package_filename("p-1.0-none-any.whl"), None);
    assert_eq!(
        parse_package_filename("p-1.0-py3-none-äny.whl"),
        Some(("p".to_string(), "1.0".to_string()))
    );
    assert_eq!(parse_package_filename("1.0.tar.gz"), None);
    assert_eq!(parse_package_filename("abc.tar.gz"), None);
}

#[test]
fn a_file_name_ends_a_path() {
    assert_eq!(
        extract_filename_from_path("ab/cd/x-1.0.tar.gz#sha256=aa/bb"),
        "x-1.0.tar.gz"
    );
    assert_eq!(
        download_request("ab/pkg-1.0.tar.gz"),
        Ok(("pkg".to_string(), "1.0".to_string()))
    );
    let reply = download_request("ab/readme.txt").unwrap_err();
    assert_eq!(reply.status, 400);
    assert_eq!(
        body(&reply)["error"],
        "Invalid filename format: Filename must be a valid wheel (.whl) or sdist (.tar.gz) format"
    );
}

#[test]
fn a_redirected_file_keeps_its_kind() {
    assert_eq!(
        redirect_filename("pkg-2.0.0-py3-none-any.whl", "pkg", "2.0.0", "1.10.0"),
        "pkg-1.10.0-py3-none-any.whl"
    );
    assert_eq!(
        redirect_filename("pkg-2.0.0.tar.gz", "pkg", "2.0.0", "1.10.0"),
        "pkg-1.10.0.tar.gz"
    );
}

#[test]
fn failures_of_the_json_api_on_the_server() {
    assert_eq!(
        release_info_url("My_Pkg", "https://pypi.org/pypi"),
        "https://pypi.org/pypi/my-pkg/json"
    );
    let answered = |status, body| Fetched::Answered { status, body };
    assert_eq!(
        release_info("P", answered(404, Ok(Json::Null))),
        Err((404, "Package not found on PyPI: P".to_string()))
    );
    assert_eq!(
        release_info("P", answered(503, Ok(Json::Null))),
        Err((502, "PyPI JSON API error, status: 503".to_string()))
    );
    assert_eq!(
        release_info("P", answered(200, Err("eof".to_string()))),
        Err((500, "Failed to parse PyPI JSON API response: eof".to_string()))
    );
    assert_eq!(
        release_info("P", Fetched::Failed("refused".to_string())),
        Err((502, "Failed to connect to PyPI JSON API: refused".to_string()))
    );
    assert_eq!(release_info("P", answered(200, Ok(text("m")))), Ok(text("m")));
}

fn planned(path: &str, version: &str, metadata: &Json) -> (DownloadPlan, Vec<DelayAction>) {
    let (plan, log) = pypi_handler::handle_pypi_download(
        &Config::default(),
        &checker(),
        path,
        "pkg",
        version,
        metadata,
        Some("10.0.0.1"),
    );
    (plan, log.iter().map(|entry| entry.action).collect())
}

fn plan(path: &str, version: &str, metadata: &Json) -> DownloadPlan {
    planned(path, version, metadata).0
}

#[test]
fn the_server_logs_its_checks_of_files() {
    let (_, log) = planned("pkg-1.9.0.tar.gz", "1.9.0", &project());
    assert_eq!(log, [DelayAction::Allowed]);
    let (_, log) = planned("pkg-2.0.0.tar.gz", "2.0.0", &project());
    assert_eq!(log, [DelayAction::Downgraded]);
    let (_, log) = planned("pkg-1.0.0.tar.gz", "1.0.0", &new_project());
    assert_eq!(log, [DelayAction::Denied]);
    let (_, log) = planned("pkg-7.0.0.tar.gz", "7.0.0", &project());
    assert!(log.is_empty());
    let (_, log) = planned("pkg-1.0.0.tar.gz", "1.0.0", &Json::object());
    assert!(log.is_empty());
}

#[test]
fn an_old_file_comes_from_the_mirror_where_it_has_it() {
    match plan("ab/pkg-1.9.0.tar.gz", "1.9.0", &project()) {
        DownloadPlan::TryMirror { mirror_url, found, otherwise } => {
            assert_eq!(
                mirror_url,
                "https://mirrors.aliyun.com/pypi/packages/ab/pkg-1.9.0.tar.gz"
            );
            assert_eq!(found.status, 302);
            assert_eq!(header(&found, "location"), Some(mirror_url.as_str()));
            assert_eq!(otherwise.status, 307);
            assert_eq!(
                header(&otherwise, "location"),
                Some("https://files.example/pkg-1.9.0.tar.gz")
            );
        }
        _ => panic!("Expected two places"),
    }
}

#[test]
fn without_a_mirror_the_upstream_file_is_used() {
    let mut config = Config::default();
    config.pypi_download_mirror = String::new();
    match pypi_handler::handle_pypi_download(
        &config,
        &checker(),
        "pkg-1.9.0.tar.gz",
        "pkg",
        "1.9.0",
        &project(),
        None,
    )
    .0
    {
        DownloadPlan::Answer(reply) => {
            assert_eq!(reply.status, 307);
            assert_eq!(
                header(&reply, "location"),
                Some("https://files.example/pkg-1.9.0.tar.gz")
            );
        }
        _ => panic!("Expected an answer"),
    }
}

#[test]
fn a_young_file_is_replaced_by_the_newest_old_one() {
    match plan("x/pkg-2.0.0-py3-none-any.whl", "2.0.0", &project()) {
        DownloadPlan::TryMirror { mirror_url, found, otherwise } => {
            assert_eq!(
                mirror_url,
                "https://mirrors.aliyun.com/pypi/packages/pkg-1.10.0-py3-none-any.whl"
            );
            assert_eq!(found.status, 307);
            assert_eq!(header(&found, "X-Delay-Original-Version"), Some("2.0.0"));
            assert_eq!(header(&found, "X-Delay-Redirected-Version"), Some("1.10.0"));
            assert_eq!(
                header(&found, "X-Delay-Reason"),
                Some("Version too recent, auto-downloaded for security")
            );
            assert_eq!(
                header(&otherwise, "location"),
                Some("https://files.example/pkg-1.10.0-py3-none-any.whl")
            );
        }
        _ => panic!("Expected two places"),
    }
}

#[test]
fn a_young_file_without_an_elder_is_refused_by_the_server() {
    match plan("pkg-1.0.0.tar.gz", "1.0.0", &new_project()) {
        DownloadPlan::Answer(reply) => {
            assert_eq!(reply.status, 403);
            assert_eq!(body(&reply)["error"], "Version too recent for download");
            assert!(body(&reply)["suggested_version"].is_null());
            assert_eq!(header(&reply, "X-Delay-Original-Version"), Some("1.0.0"));
        }
        _ => panic!("Expected an answer"),
    }
}

#[test]
fn a_release_that_is_not_listed_goes_through() {
    match plan("ab/pkg-7.0.0.tar.gz", "7.0.0", &project()) {
        DownloadPlan::TryMirror { mirror_url, found, otherwise } => {
            assert_eq!(
                mirror_url,
                "https://mirrors.aliyun.com/pypi/packages/ab/pkg-7.0.0.tar.gz"
            );
            assert_eq!(
                header(&found, "X-Delay-Warning"),
                Some("Version not in JSON API, using mirror directly")
            );
            assert_eq!(
                header(&otherwise, "location"),
                Some("https://files.pythonhosted.org/packages/ab/pkg-7.0.0.tar.gz")
            );
        }
        _ => panic!("Expected two places"),
    }
    let settled = plan("ab/pkg-7.0.0.tar.gz", "7.0.0", &project()).settle(false);
    assert_eq!(settled.status, 307);
    let settled = plan("ab/pkg-7.0.0.tar.gz", "7.0.0", &project()).settle(true);
    assert_eq!(settled.status, 302);
}

#[test]
fn server_files_without_times_are_errors() {
    let error = |metadata: Json| match plan("pkg-1.0.0.tar.gz", "1.0.0", &metadata) {
        DownloadPlan::Answer(reply) => {
            assert_eq!(reply.status, 500);
            body(&reply)["error"].as_str().unwrap().to_string()
        }
        _ => panic!("Expected an answer"),
    };
    assert_eq!(
        error(Json::object()),
        "Unable to determine version age: PyPI JSON API response does not contain 'releases' field"
    );
    let with = |files: Json| object(vec![("releases", object(vec![("1.0.0", files)]))]);
    assert_eq!(
        error(with(Json::Array(vec![Json::object()]))),
        "Upload time not found: Release files do not contain upload_time information"
    );
    assert_eq!(
        error(with(Json::Array(vec![file("x", "soon")]))),
        "Failed to parse upload time: Invalid time field format: invalid upload_time format: \
         Invalid time field format: unable to parse datetime: soon"
    );
}

#[test]
fn server_lists_are_redirected() {
    let reply = pypi_handler::handle_pypi_simple_index(&Config::default());
    assert_eq!(reply.status, 307);
    assert_eq!(header(&reply, "location"), Some("https://pypi.org/simple/"));
    let reply = pypi_handler::handle_pypi_package_list(&Config::default(), "My_Pkg");
    assert_eq!(
        header(&reply, "location"),
        Some("https://pypi.org/simple/my-pkg/")
    );
}

#[test]
fn request_ids_are_the_time_in_hexadecimal() {
    assert_eq!(request_id(&Timestamp { secs: 255, nanos: 16 }), "ff10");
    assert_eq!(request_id(&Timestamp { secs: 0, nanos: 0 }), "00");
    assert_eq!(request_id(&Timestamp { secs: -1, nanos: 7 }), "00");
}

#[test]
fn upstream_errors_are_mapped() {
    for (status, shown_status, error) in [
        (400, 400, "Bad request to upstream: package=p"),
        (401, 502, "Upstream authentication failed"),
        (403, 502, "Upstream authentication failed"),
        (404, 404, "Resource not found on upstream: package=p"),
        (429, 429, "Upstream rate limited, please retry later"),
        (500, 502, "Upstream internal error"),
        (502, 502, "Upstream bad gateway"),
        (503, 503, "Upstream service unavailable"),
        (504, 504, "Upstream gateway timeout"),
        (418, 502, "Unexpected upstream error: 418"),
    ] {
        let reply = map_upstream_error(status, "package=p");
        assert_eq!(reply.status, shown_status);
        let json = body(&reply);
        assert_eq!(json["error"], error);
        assert_eq!(json["status"], shown_status);
        assert_eq!(json["upstream_status"], status);
        assert_eq!(json["context"], "package=p");
        let id = json["request_id"].as_str().unwrap();
        assert!(!id.is_empty());
        assert!(id.chars().all(|c| c.is_ascii_hexdigit()));
        assert!(json["timestamp"].as_str().unwrap().ends_with("+00:00"));
        assert_eq!(header(&reply, "Content-Type"), Some("application/json"));
        assert_eq!(
            header(&reply, "Retry-After"),
            if status == 429 { Some("60") } else { None }
        );
    }
}

#[test]
fn metadata_is_fetched_once_for_all_spellings() {
    let mut ctx = RequestContext::new();
    assert_eq!(ctx.get_or_fetch_metadata("My_Pkg", Ok(text("1"))), Ok(text("1")));
    assert_eq!(ctx.get_or_fetch_metadata("my-pkg", Ok(text("2"))), Ok(text("1")));
    assert_eq!(ctx.cached("my-pkg"), Some(&text("1")));
    let failed = Reply::error(502, "x");
    assert!(ctx.get_or_fetch_metadata("other", Err(failed)).is_err());
    assert_eq!(ctx.cached("other"), None);
    assert_eq!(ctx.note("my-pkg", text("3")), text("1"));
    assert_eq!(ctx.note("new", Json::Null), Json::Null);
    assert_eq!(ctx.cached("new"), None);
    assert_eq!(ctx.note("new", text("4")), text("4"));
    assert_eq!(ctx.cached("new"), Some(&text("4")));
}

fn plain(reply: &Reply) -> &str {
    match &reply.body {
        Body::Text(s) => s,
        other => panic!("Expected text, got {:?}", other),
    }
}

#[test]
fn failures_of_the_json_api() {
    let failed = |fetched| fetch_pypi_release_info("p", fetched).unwrap_err();
    let reply = failed(MetadataFetch::NotSent("bad".to_string()));
    assert_eq!(reply.status, 502);
    assert_eq!(plain(&reply), "Failed to create PyPI request: bad");
    let reply = failed(MetadataFetch::NotAnswered("refused".to_string()));
    assert_eq!(reply.status, 502);
    assert_eq!(plain(&reply), "Failed to connect to PyPI JSON API: refused");
    let reply = failed(MetadataFetch::Parsed {
        status: 404,
        metadata: Json::Null,
    });
    assert_eq!(reply.status, 404);
    assert_eq!(body(&reply)["context"], "package=p");
    let reply = failed(MetadataFetch::Unreadable {
        status: 200,
        error: "cut".to_string(),
    });
    assert_eq!(plain(&reply), "Failed to read PyPI JSON API response: cut");
    let reply = failed(MetadataFetch::Malformed {
        status: 200,
        error: "eof".to_string(),
    });
    assert_eq!(reply.status, 500);
    assert_eq!(plain(&reply), "Failed to parse PyPI JSON API response: eof");
}

#[test]
fn a_list_is_fetched_with_its_metadata() {
    assert_eq!(
        list_urls("my-pkg", &Config::default()),
        (
            "https://pypi.org/simple/my-pkg/".to_string(),
            "https://pypi.org/pypi/my-pkg/json".to_string()
        )
    );
    let page = |status| PageFetch::Read {
        status,
        body: "html".to_string(),
    };
    let extra = |status, value| ExtraFetch::Answered { status, value };
    assert_eq!(
        fetch_metadata_parallel("p", page(200), extra(200, Some(text("m")))),
        Ok(("html".to_string(), text("m")))
    );
    assert_eq!(
        fetch_metadata_parallel("p", page(200), extra(200, None)),
        Ok(("html".to_string(), Json::Null))
    );
    assert_eq!(
        fetch_metadata_parallel("p", page(200), extra(404, Some(text("m")))),
        Ok(("html".to_string(), Json::Null))
    );
    let reply = fetch_metadata_parallel("p", page(404), extra(200, None)).unwrap_err();
    assert_eq!(reply.status, 404);
    assert_eq!(
        body(&reply)["context"],
        "package list (parallel), package=p"
    );
    let reply = fetch_metadata_parallel(
        "p",
        PageFetch::NotAnswered("refused".to_string()),
        extra(200, None),
    )
    .unwrap_err();
    assert_eq!(plain(&reply), "Simple API fetch failed: refused");
    let reply =
        fetch_metadata_parallel("p", page(200), ExtraFetch::NotAnswered("refused".to_string()))
            .unwrap_err();
    assert_eq!(plain(&reply), "JSON API fetch failed: refused");
}

#[test]
fn a_download_is_held_to_its_digest() {
    let expected = "ba7816bf8f01cfea414140de5dae2223b00361a396177a9cb410ff61f20015ad";
    let reply = download_with_hash_verification(200, b"abc".to_vec(), expected).unwrap();
    assert_eq!(reply.status, 200);
    assert_eq!(header(&reply, "X-Integrity-Verified"), Some("sha256"));
    assert!(matches!(&reply.body, Body::Bytes(b) if b == b"abc"));
    assert_eq!(
        download_with_hash_verification(200, b"abc".to_vec(), "00").unwrap_err(),
        format!("SHA256 mismatch: expected=00, computed={}", expected)
    );
    assert_eq!(
        download_with_hash_verification(404, b"abc".to_vec(), expected).unwrap_err(),
        "Download failed: status 404"
    );
    assert!(check_digest(&vec![1, 2], "0102", Vec::new()).is_ok());
    let reply = hash_failure("SHA256 mismatch", "p", "1", "p-1.tar.gz", "u");
    assert_eq!(reply.status, 500);
    assert_eq!(body(&reply)["error"], "Hash verification failed");
    assert_eq!(body(&reply)["detail"], "SHA256 mismatch");
    assert_eq!(body(&reply)["filename"], "p-1.tar.gz");
}

#[test]
fn the_simple_index_is_passed_on() {
    assert_eq!(simple_index_url(&Config::default()), "https://pypi.org/simple/");
    let reply = pypi::handle_pypi_simple_index(PageFetch::Read {
        status: 200,
        body: "html".to_string(),
    })
    .unwrap();
    assert_eq!(plain(&reply), "html");
    assert_eq!(
        header(&reply, "X-Delay-Info"),
        Some("Simple index does not contain timing data")
    );
    assert_eq!(
        header(&reply, "Content-Type"),
        Some("text/html; charset=utf-8")
    );
    let failed = |page| pypi::handle_pypi_simple_index(page).unwrap_err();
    assert_eq!(
        failed(PageFetch::Read {
            status: 503,
            body: String::new()
        }),
        "upstream PyPI simple index error: status=503, context=simple index fetch"
    );
    assert_eq!(
        failed(PageFetch::NotSent("bad".to_string())),
        "Failed to create upstream request: bad"
    );
    assert_eq!(
        failed(PageFetch::NotAnswered("refused".to_string())),
        "Failed to connect to upstream PyPI registry: refused"
    );
    assert_eq!(
        failed(PageFetch::Unreadable {
            status: 200,
            error: "cut".to_string()
        }),
        "Failed to read upstream response: cut"
    );
}

fn listed(strict: bool, accept: &str) -> Reply {
    let mut config = Config::default();
    if strict {
        config.pypi_filter_mode = Some("strict".to_string());
    }
    pypi::handle_pypi_package_list(&config, &checker(), PAGE, &project(), accept)
}

#[test]
fn a_strict_list_hides_young_files() {
    let reply = listed(true, "text/html");
    assert!(plain(&reply).contains("pkg-1.9.0.tar.gz"));
    assert!(!plain(&reply).contains("pkg-2.0.0.tar.gz"));
    assert_eq!(header(&reply, "X-Delay-Hidden-Versions"), Some("2.0.0"));
    assert_eq!(
        header(&reply, "Content-Type"),
        Some("text/html; charset=utf-8")
    );
    let reply = listed(true, "application/vnd.pypi.simple.v1+json");
    let json = body(&reply);
    assert_eq!(json["name"], "pkg");
    assert_eq!(json["files"].as_array().unwrap().len(), 1);
    assert_eq!(json["files"][0]["filename"], "pkg-1.9.0.tar.gz");
    assert_eq!(json["files"][0]["hashes"]["sha256"], "aa");
    assert_eq!(json["files"][0]["requires-python"], ">=3.8");
    assert_eq!(json["files"][0]["yanked"], false);
    assert_eq!(header(&reply, "X-Delay-Hidden-Versions"), Some("2.0.0"));
}

#[test]
fn a_plain_list_warns_of_young_files() {
    let reply = listed(false, "");
    assert_eq!(plain(&reply), PAGE);
    assert_eq!(
        header(&reply, "X-Delay-Warning"),
        Some("Recent versions blocked by delay policy: 2.0.0")
    );
    let reply = listed(false, "application/vnd.pypi.simple.v1+json");
    assert_eq!(body(&reply)["files"].as_array().unwrap().len(), 2);
    assert_eq!(
        header(&reply, "Content-Type"),
        Some("application/vnd.pypi.simple.v1+json")
    );
    let reply =
        pypi::handle_pypi_package_list(&Config::default(), &checker(), PAGE, &Json::Null, "");
    assert_eq!(header(&reply, "X-Delay-Warning"), None);
    assert_eq!(
        header(&reply, "X-Delay-Info"),
        Some("Package list served; use download endpoint for delay enforcement")
    );
}

#[test]
fn every_occurrence_of_a_young_link_goes() {
    let link = "<a href=\"x\">pkg-2.0.0.tar.gz</a>";
    let html = format!("{}|{}", link, link);
    let times = checker()
        .parse_time_field(&object(vec![("2.0.0", text("2024-06-14T00:00:00"))]))
        .unwrap();
    let (kept, hidden) = filter_recent_versions_html(&html, &times, &checker());
    assert_eq!(kept, "|");
    assert_eq!(hidden, ["2.0.0", "2.0.0"]);
}

#[test]
fn a_failed_list_is_reported() {
    let reply = list_failure("p", "RustError(\"x\")");
    assert_eq!(reply.status, 500);
    assert_eq!(plain(&reply), "PyPI package list error for p: RustError(\"x\")");
}

fn download(filename: &str, version: &str, metadata: &Json) -> (FileAction, Vec<DelayAction>) {
    let (action, log) = pypi::handle_pypi_download(
        &Config::default(),
        &checker(),
        filename,
        "pkg",
        version,
        metadata,
        Some("10.0.0.1"),
    );
    (action, log.iter().map(|entry| entry.action).collect())
}

#[test]
fn an_old_file_is_verified_where_its_digest_is_known() {
    match download("pkg-1.10.0.tar.gz", "1.10.0", &project()) {
        (FileAction::Verify { url, expected_hash }, log) => {
            assert_eq!(url, "https://files.example/pkg-1.10.0.tar.gz");
            assert!(expected_hash.starts_with("ba7816bf"));
            assert_eq!(log, [DelayAction::Allowed]);
        }
        _ => panic!("Expected a digest"),
    }
    match download("pkg-1.9.0.tar.gz", "1.9.0", &project()) {
        (FileAction::Fetch { url, headers }, log) => {
            assert_eq!(url, "https://files.example/pkg-1.9.0.tar.gz");
            assert!(headers.is_empty());
            assert_eq!(log, [DelayAction::Allowed]);
        }
        _ => panic!("Expected a file"),
    }
}

#[test]
fn a_young_file_is_fetched_from_an_older_release() {
    match download("pkg-2.0.0.tar.gz", "2.0.0", &project()) {
        (FileAction::Fetch { url, headers }, log) => {
            assert_eq!(url, "https://files.example/pkg-1.10.0.tar.gz");
            assert_eq!(headers.len(), 3);
            assert_eq!(
                headers[1],
                ("X-Delay-Redirected-Version".to_string(), "1.10.0".to_string())
            );
            assert_eq!(log, [DelayAction::Downgraded]);
        }
        _ => panic!("Expected a file"),
    }
}

#[test]
fn a_young_file_without_an_elder_is_refused() {
    match download("pkg-1.0.0.tar.gz", "1.0.0", &new_project()) {
        (FileAction::Answer(reply), log) => {
            assert_eq!(reply.status, 403);
            assert_eq!(
                body(&reply)["reason"],
                "Version was published within the last 3 day(s)"
            );
            assert_eq!(
                header(&reply, "X-Delay-Reason"),
                Some("Version published too recently, below delay threshold")
            );
            assert_eq!(log, [DelayAction::Denied]);
        }
        _ => panic!("Expected an answer"),
    }
}

#[test]
fn files_that_cannot_be_judged() {
    let answer = |filename: &str, version: &str, metadata: &Json| {
        match download(filename, version, metadata).0 {
            FileAction::Answer(reply) => (reply.status, plain(&reply).to_string()),
            _ => panic!("Expected an answer"),
        }
    };
    assert_eq!(
        answer("pkg-7.0.0.tar.gz", "7.0.0", &project()),
        (
            404,
            "Version not found in package releases: package=pkg, version=7.0.0".to_string()
        )
    );
    assert_eq!(
        answer("pkg-1.0.0.tar.gz", "1.0.0", &Json::object()),
        (
            500,
            "Unable to determine version age: PyPI JSON API response does not contain 'releases' field"
                .to_string()
        )
    );
    let reply = file_request("readme.txt").unwrap_err();
    assert_eq!(reply.status, 400);
    assert_eq!(
        plain(&reply),
        "Invalid filename format: Filename must be a valid wheel (.whl) or sdist (.tar.gz) format"
    );
    assert_eq!(
        file_request("pkg-1.0.tar.gz"),
        Ok(("pkg".to_string(), "1.0".to_string()))
    );
}

#[test]
fn a_page_without_young_links_stays_as_it_is() {
    let times = checker()
        .parse_time_field(&object(vec![("1.9.0", text("2024-01-01T00:00:00"))]))
        .unwrap();
    let (kept, hidden) = filter_recent_versions_html(PAGE, &times, &checker());
    assert_eq!(kept, PAGE);
    assert!(hidden.is_empty());
}
