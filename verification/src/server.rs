//! The answers of the standalone server.

use vstd::prelude::*;
use vstd::string::{StrSliceExecFns, StringExecFns};

use crate::config::Config;
use crate::delay_check::{
    self, CheckView, DelayChecker, ErrorView, VersionCheckResult, VersionTimeInfo,
};
use crate::delay_logger::{self, DelayLogEntry, DelayLogger, LogView, PackageType};
use crate::fetch::{self, Fetched, FetchedView};
use crate::json::{self, Json, JsonView};
use crate::names;
use crate::npm::{
    self, inner_object, object_at, tarball_address, tarball_url, PackageAction, PackageActionView,
};
use crate::pattern;
use crate::pypi_handler::{
    denial, denial_json, suggested_version, suggestion, too_recent, too_recent_text,
};
use crate::reply::{BodyView, Reply, ReplyView};
use crate::router::{
    described, described_json, endpoint, endpoint_json, health, health_json, service, service_json,
    settings_json, shown_settings, BuildInfo,
};
use crate::text;
use crate::timestamp::{self, Timestamp};

verus! {

/// The endpoints of the server.
pub open spec fn endpoints() -> JsonView {
    JsonView::object().put(
        "health"@,
        described("/health"@, "Health check and configuration status"@),
    ).put(
        "npm"@,
        JsonView::object().put("metadata"@, endpoint("/npm/{package}"@)).put(
            "download"@,
            endpoint("/dl/{package}@{version}.tgz"@),
        ),
    ).put(
        "gomod"@,
        JsonView::object().put("version_list"@, endpoint("/gomod/{module}/@v/list"@)),
    ).put("pypi"@, JsonView::object().put("simple_index"@, endpoint("/pypi/simple/"@)))
}

/// The answer that describes the server.
pub fn index(build: &BuildInfo) -> (r: Reply)
    ensures
        r@ == ReplyView::labelled_json(200, service(*build, endpoints())),
{
    let list = Json::object().put(
        "health",
        described_json("/health", "Health check and configuration status"),
    ).put(
        "npm",
        Json::object().put("metadata", endpoint_json("/npm/{package}")).put(
            "download",
            endpoint_json("/dl/{package}@{version}.tgz"),
        ),
    ).put(
        "gomod",
        Json::object().put("version_list", endpoint_json("/gomod/{module}/@v/list")),
    ).put("pypi", Json::object().put("simple_index", endpoint_json("/pypi/simple/")));
    Reply::labelled_json(200, service_json(build, list))
}

/// The answer on the health of the server.
pub fn health_reply(build: &BuildInfo, config: &Config) -> (r: Reply)
    ensures
        r@ == ReplyView::labelled_json(
            200,
            health(
                *build,
                shown_settings(*config).put(
                    "pypi_simple_index"@,
                    JsonView::Str(config.pypi_simple_index@),
                ).put(
                    "pypi_download_mirror"@,
                    JsonView::Str(config.pypi_download_mirror@),
                ),
            ),
        ),
{
    let settings = settings_json(config).put(
        "pypi_simple_index",
        Json::string(config.pypi_simple_index.as_str()),
    ).put("pypi_download_mirror", Json::string(config.pypi_download_mirror.as_str()));
    Reply::labelled_json(200, health_json(build, settings))
}

/// The port to listen on: the one that is set, where it is a port, else 8080.
pub fn listen_port(set: Option<&str>) -> (r: u16)
    ensures
        r == (match text::slice_view(set) {
            Some(s) => match text::as_u64(s) {
                Some(n) => if n <= 65535 {
                    n as u16
                } else {
                    8080
                },
                None => 8080,
            },
            None => 8080,
        }),
{
    if let Some(s) = set {
        if let Some(n) = text::parse_u64(s) {
            if n <= 65535 {
                return n as u16;
            }
        }
    }
    8080
}

/// What a path below the NPM endpoint asks for: the metadata of a package or one
/// of its versions.
pub fn npm_request(path: &str) -> (r: Result<(String, Option<String>), Reply>)
    ensures
        ({
            let parts = text::segments(path@);
            match r {
                Ok((package, version)) => {
                    &&& parts.len() > 0
                    &&& package@ == parts[0]
                    &&& text::opt_view(version) == (if parts.len() > 1 {
                        Some(parts[1])
                    } else {
                        None
                    })
                },
                Err(reply) => parts.len() == 0 && reply@ == ReplyView::error(
                    400,
                    "Missing package name"@,
                ),
            }
        }),
{
    let parts = text::path_segments(path);
    proof {
        assert(text::views(parts@).len() == parts@.len());
    }
    if parts.len() == 0 {
        return Err(Reply::error(400, "Missing package name"));
    }
    let version = if parts.len() > 1 {
        Some(parts[1].clone())
    } else {
        None
    };
    Ok((parts[0].clone(), version))
}

/// The metadata of a package, or the answer where it could not be had.
pub open spec fn metadata_or_reply(package: Seq<char>, fetched: FetchedView) -> Result<
    JsonView,
    ReplyView,
> {
    match fetched {
        FetchedView::Failed(e) => Err(ReplyView::error(502, "Upstream fetch failed: "@ + e)),
        FetchedView::Answered { status, body } => if !fetch::success(status) {
            Err(ReplyView::error(status, "Upstream error for package: "@ + package))
        } else {
            match body {
                Ok(v) => Ok(v),
                Err(e) => Err(
                    ReplyView::error(502, "Failed to parse upstream response: "@ + e),
                ),
            }
        },
    }
}

/// The metadata of a package from what came of asking for it, or the answer
/// where it could not be had.
pub fn upstream_metadata(package: &str, fetched: Fetched) -> (r: Result<Json, Reply>)
    ensures
        match r {
            Ok(v) => metadata_or_reply(package@, fetched@) == Ok::<JsonView, ReplyView>(v@),
            Err(reply) => metadata_or_reply(package@, fetched@) == Err::<JsonView, ReplyView>(
                reply@,
            ),
        },
{
    match fetched {
        Fetched::Failed(e) => {
            let m = "Upstream fetch failed: ".to_owned().concat(e.as_str());
            Err(Reply::error(502, m.as_str()))
        },
        Fetched::Answered { status, body } => {
            if !fetch::is_success(status) {
                let m = "Upstream error for package: ".to_owned().concat(package);
                return Err(Reply::error(status, m.as_str()));
            }
            match body {
                Ok(v) => Ok(v),
                Err(e) => {
                    let m = "Failed to parse upstream response: ".to_owned().concat(e.as_str());
                    Err(Reply::error(502, m.as_str()))
                },
            }
        },
    }
}

/// What is kept of the metadata of a package, as long as it is fresh: under five
/// minutes.
pub fn fresh_metadata(kept: Option<(Json, u64)>) -> (r: Option<Json>)
    ensures
        match r {
            Some(v) => kept matches Some((m, age)) && age < 300 && v@ == m@,
            None => kept matches Some((m, age)) ==> age >= 300,
        },
{
    match kept {
        Some((metadata, age_secs)) => if age_secs < 300 {
            Some(metadata)
        } else {
            None
        },
        None => None,
    }
}

/// Whether a version stays listed: unless it has too young a time.
pub open spec fn stays(
    times: Seq<(Seq<char>, Timestamp)>,
    cutoff: Timestamp,
    version: Seq<char>,
) -> bool {
    names::lookup(times, version) matches Some(t) ==> t.le(cutoff)
}

/// Metadata without the versions that are too young.
pub open spec fn drop_young(
    metadata: JsonView,
    times: Seq<(Seq<char>, Timestamp)>,
    cutoff: Timestamp,
) -> JsonView {
    match inner_object(metadata, "versions"@) {
        Some(versions) => metadata.put(
            "versions"@,
            JsonView::Object(
                names::keep(versions, |v: Seq<char>| stays(times, cutoff, v)),
            ),
        ),
        None => metadata,
    }
}

/// The tags with the newest eligible version as the latest one, where the latest
/// one is too young and there is an eligible one.
pub open spec fn fix_latest(
    tags: Seq<(Seq<char>, JsonView)>,
    times: Seq<(Seq<char>, Timestamp)>,
    cutoff: Timestamp,
) -> Seq<(Seq<char>, JsonView)> {
    match names::lookup(tags, "latest"@) {
        Some(JsonView::Str(latest)) => if stays(times, cutoff, latest) {
            tags
        } else {
            match delay_check::newest(delay_check::eligible(times, cutoff)) {
                Some(best) => names::put(tags, "latest"@, JsonView::Str(best)),
                None => tags,
            }
        },
        _ => tags,
    }
}

/// Metadata with its latest version put right.
pub open spec fn fix_tags(
    metadata: JsonView,
    times: Seq<(Seq<char>, Timestamp)>,
    cutoff: Timestamp,
) -> JsonView {
    match inner_object(metadata, "dist-tags"@) {
        Some(tags) => metadata.put(
            "dist-tags"@,
            JsonView::Object(fix_latest(tags, times, cutoff)),
        ),
        None => metadata,
    }
}

/// The time field of metadata; an empty one where it has none.
pub open spec fn time_field(metadata: JsonView) -> JsonView {
    match metadata.get("time"@) {
        Some(field) => field,
        None => JsonView::object(),
    }
}

/// Metadata without the versions that are too young, as it is where it has no
/// times.
pub open spec fn filtered(metadata: JsonView, cutoff: Timestamp) -> JsonView {
    match delay_check::field_times(time_field(metadata)) {
        Ok(times) => fix_tags(drop_young(metadata, times, cutoff), times, cutoff),
        Err(_) => metadata,
    }
}

fn version_stays(checker: &DelayChecker, time_info: &VersionTimeInfo, version: &str) -> (r: bool)
    ensures
        r == stays(time_info@, checker.cutoff(), version@),
{
    match time_info.get_publish_time(version) {
        Some(t) => checker.is_version_allowed(t),
        None => true,
    }
}

/// Leaves out of `metadata` the versions that are too young, given the times of
/// its versions.
pub fn filter_with_times(metadata: Json, time_info: &VersionTimeInfo, checker: &DelayChecker) -> (r:
    Json)
    ensures
        r@ == fix_tags(
            drop_young(metadata@, time_info@, checker.cutoff()),
            time_info@,
            checker.cutoff(),
        ),
{
    let ghost times = time_info@;
    let ghost cutoff = checker.cutoff();
    let ghost start = metadata@;
    let mut m = metadata;
    let versions = match object_at(&m, "versions") {
        Some(members) => {
            let keep = |v: &String| -> (b: bool)
                ensures
                    b == stays(time_info@, checker.cutoff(), v@),
                { version_stays(checker, time_info, v.as_str()) };
            Some(json::retain(members, keep, Ghost(|v: Seq<char>| stays(times, cutoff, v))))
        },
        None => None,
    };
    if let Some(members) = versions {
        proof {
            json::lemma_object_view(members);
        }
        m = m.put("versions", Json::Object(members));
    }
    proof {
        assert(m@ == drop_young(start, times, cutoff));
    }
    let tags = match object_at(&m, "dist-tags") {
        Some(members) => {
            let copy = json::copy_members(members);
            proof {
                json::lemma_object_view(copy);
            }
            let tags = Json::Object(copy);
            let young = match tags.get_str("latest") {
                Some(latest) => !version_stays(checker, time_info, latest),
                None => false,
            };
            if young {
                match delay_check::newest_of(&checker.eligible_versions(time_info)) {
                    Some(best) => Some(tags.put("latest", Json::Str(best))),
                    None => Some(tags),
                }
            } else {
                Some(tags)
            }
        },
        None => None,
    };
    match tags {
        Some(t) => m.put("dist-tags", t),
        None => m,
    }
}

/// Leaves out of `metadata` the versions that are too young.
pub fn filter_npm_metadata(metadata: Json, checker: &DelayChecker) -> (r: Json)
    ensures
        r@ == filtered(metadata@, checker.cutoff()),
{
    let info = match metadata.get("time") {
        Some(field) => checker.parse_time_field(field),
        None => checker.parse_time_field(&Json::object()),
    };
    match info {
        Ok(time_info) => filter_with_times(metadata, &time_info, checker),
        Err(_) => metadata,
    }
}

/// A version is left in filtered metadata exactly if it was listed and is not
/// known to be too young.
pub proof fn law_young_versions_dropped(
    metadata: JsonView,
    times: Seq<(Seq<char>, Timestamp)>,
    cutoff: Timestamp,
    version: Seq<char>,
)
    requires
        metadata matches JsonView::Object(m) && names::in_order(m),
        delay_check::field_times(time_field(metadata)) == Ok::<_, ErrorView>(times),
        inner_object(metadata, "versions"@) is Some,
    ensures
        inner_object(filtered(metadata, cutoff), "versions"@) matches Some(left)
            && inner_object(metadata, "versions"@) matches Some(listed) && names::lookup(
            left,
            version,
        ) == (if names::lookup(times, version) matches Some(t) && !t.le(cutoff) {
            None
        } else {
            names::lookup(listed, version)
        }),
{
    reveal_strlit("versions");
    reveal_strlit("dist-tags");
    assert("versions"@.len() == 8 && "dist-tags"@.len() == 9);
    let m = metadata->Object_0;
    let listed = inner_object(metadata, "versions"@)->0;
    let passes = |v: Seq<char>| stays(times, cutoff, v);
    let left = JsonView::Object(names::keep(listed, passes));
    names::lemma_put_lookup(m, "versions"@, left, "versions"@);
    names::lemma_put_order(m, "versions"@, left);
    names::lemma_keep_lookup(listed, passes, version);
    let after = drop_young(metadata, times, cutoff);
    if let Some(tags) = inner_object(after, "dist-tags"@) {
        let fixed = JsonView::Object(fix_latest(tags, times, cutoff));
        names::lemma_put_lookup(after->Object_0, "dist-tags"@, fixed, "versions"@);
    }
}

/// The latest version of filtered metadata is not known to be too young, as long
/// as any version is old enough.
pub proof fn law_latest_old_enough(
    tags: Seq<(Seq<char>, JsonView)>,
    times: Seq<(Seq<char>, Timestamp)>,
    cutoff: Timestamp,
)
    requires
        names::in_order(tags),
        names::in_order(times),
        delay_check::eligible(times, cutoff).len() > 0,
    ensures
        names::lookup(fix_latest(tags, times, cutoff), "latest"@) matches Some(JsonView::Str(latest))
            ==> stays(times, cutoff, latest),
{
    let list = delay_check::eligible(times, cutoff);
    delay_check::law_newest(list);
    let best = delay_check::newest(list)->0;
    delay_check::law_eligible(times, cutoff, best);
    names::lemma_put_lookup(tags, "latest"@, JsonView::Str(best), "latest"@);
}

/// The address under which a client reached the server, by the scheme that a proxy
/// in front of it reports and the host that the client named.
pub fn base_url(forwarded_proto: Option<&str>, host: &str) -> (r: String)
    ensures
        r@ == (if host@.len() == 0 {
            Seq::empty()
        } else {
            (match text::slice_view(forwarded_proto) {
                Some(proto) => proto,
                None => "http"@,
            }) + "://"@ + host@
        }),
{
    if host.is_empty() {
        return String::new();
    }
    let proto = match forwarded_proto {
        Some(proto) => proto,
        None => "http",
    };
    proto.to_owned().concat("://").concat(host)
}

/// The versions that metadata shows to be old enough.
pub open spec fn old_enough(metadata: JsonView, cutoff: Timestamp) -> Seq<Seq<char>> {
    match delay_check::field_times(time_field(metadata)) {
        Ok(times) => delay_check::eligible(times, cutoff),
        Err(_) => Seq::empty(),
    }
}

/// Metadata as it is served. As long as any version is shown to be old enough, those
/// are listed and no others, and the newest of them is the latest one; else the
/// versions that are too young are left out. Tarballs are those of the server.
pub open spec fn served_metadata(
    metadata: JsonView,
    cutoff: Timestamp,
    base_url: Seq<char>,
) -> JsonView {
    let kept = old_enough(metadata, cutoff);
    npm::rewritten(
        if kept.len() > 0 {
            npm::listing(metadata, kept)
        } else {
            filtered(metadata, cutoff)
        },
        base_url,
    )
}

/// The answer with the metadata of a package, with a warning where its times can be
/// read and show no version to be old enough.
pub open spec fn metadata_reply(
    metadata: JsonView,
    cutoff: Timestamp,
    base_url: Seq<char>,
) -> ReplyView {
    let plain = ReplyView::labelled_json(200, served_metadata(metadata, cutoff, base_url));
    if delay_check::field_times(time_field(metadata)) is Ok && old_enough(
        metadata,
        cutoff,
    ).len() == 0 {
        plain.header("X-Delay-Warning"@, "All versions are recent"@)
    } else {
        plain
    }
}

/// The answer with the metadata of a package.
pub fn handle_npm_metadata(metadata: Json, checker: &DelayChecker, base_url: &str) -> (r: Reply)
    ensures
        r@ == metadata_reply(metadata@, checker.cutoff(), base_url@),
{
    let info = match metadata.get("time") {
        Some(field) => checker.parse_time_field(field),
        None => checker.parse_time_field(&Json::object()),
    };
    let (readable, kept) = match &info {
        Ok(time_info) => (true, checker.eligible_versions(time_info)),
        Err(_) => (false, Vec::new()),
    };
    proof {
        assert(text::views(kept@).len() == kept@.len());
        assert(text::views(kept@) =~= old_enough(metadata@, checker.cutoff()));
    }
    let listed = if kept.len() > 0 {
        npm::list_only(metadata, &kept)
    } else {
        filter_npm_metadata(metadata, checker)
    };
    let plain = Reply::labelled_json(200, npm::with_mirror_tarballs(listed, base_url));
    if readable && kept.len() == 0 {
        plain.header("X-Delay-Warning", "All versions are recent")
    } else {
        plain
    }
}

/// Where the times of metadata can be read and there is no warning, it lists no
/// version but those that are old enough, and its latest version is one of them.
pub proof fn law_served_old_enough(
    metadata: JsonView,
    times: Seq<(Seq<char>, Timestamp)>,
    cutoff: Timestamp,
    base_url: Seq<char>,
    version: Seq<char>,
)
    requires
        metadata matches JsonView::Object(m) && names::in_order(m),
        inner_object(metadata, "dist-tags"@) matches Some(tags) ==> names::in_order(tags),
        delay_check::field_times(time_field(metadata)) == Ok::<_, ErrorView>(times),
        names::in_order(times),
        !metadata_reply(metadata, cutoff, base_url).headers.contains(
            ("X-Delay-Warning"@, "All versions are recent"@),
        ),
    ensures
        ({
            let body = served_metadata(metadata, cutoff, base_url);
            &&& inner_object(body, "versions"@) matches Some(served) ==> {
                names::lookup(served, version) is Some ==> (names::lookup(times, version) matches
                    Some(t) && t.le(cutoff))
            }
            &&& inner_object(body, "dist-tags"@) matches Some(tags) ==> {
                &&& names::lookup(tags, "latest"@) matches Some(JsonView::Str(latest))
                &&& names::lookup(times, latest) matches Some(t)
                &&& t.le(cutoff)
            }
        }),
{
    reveal_strlit("versions");
    reveal_strlit("dist-tags");
    assert("versions"@.len() == 8 && "dist-tags"@.len() == 9);
    let kept = delay_check::eligible(times, cutoff);
    if kept.len() == 0 {
        let headers = metadata_reply(metadata, cutoff, base_url).headers;
        assert(headers[1] == ("X-Delay-Warning"@, "All versions are recent"@));
    }
    delay_check::law_eligible(times, cutoff, version);
    delay_check::law_newest(kept);
    let latest = delay_check::newest(kept)->0;
    delay_check::law_eligible(times, cutoff, latest);
    let fewer = npm::keep_versions(metadata, kept);
    npm::lemma_member_set(metadata, fewer, "versions"@, "dist-tags"@);
    let left = npm::listing(metadata, kept);
    npm::lemma_member_set(fewer, left, "dist-tags"@, "versions"@);
    let body = served_metadata(metadata, cutoff, base_url);
    npm::lemma_member_set(left, body, "versions"@, "dist-tags"@);
    if let Some(tags) = inner_object(metadata, "dist-tags"@) {
        let set = JsonView::Object(names::put(tags, "latest"@, JsonView::Str(latest)));
        assert(left == fewer.put("dist-tags"@, set));
        names::lemma_put_lookup(tags, "latest"@, JsonView::Str(latest), "latest"@);
    }
    if let Some(listed) = inner_object(metadata, "versions"@) {
        let passes = |v: Seq<char>| kept.contains(v);
        let versions = names::keep(listed, passes);
        assert(fewer == metadata.put("versions"@, JsonView::Object(versions)));
        names::lemma_keep_lookup(listed, passes, version);
        let served = npm::mirrored_versions(versions, base_url, npm::package_name(left));
        assert(body == left.put("versions"@, JsonView::Object(served)));
        names::lemma_lookup_found(served, version);
        names::lemma_lookup_found(versions, version);
        if let Some(value) = names::lookup(served, version) {
            let k = choose|k: int| 0 <= k < served.len() && served[k] == (version, value);
            assert(versions[k].0 == version);
        }
    }
}

/// What metadata says beside its versions and tags is served as it is, the times of
/// all versions among it.
pub proof fn law_served_rest(
    metadata: JsonView,
    cutoff: Timestamp,
    base_url: Seq<char>,
    key: Seq<char>,
)
    requires
        metadata matches JsonView::Object(m) && names::in_order(m),
        key != "versions"@,
        key != "dist-tags"@,
    ensures
        served_metadata(metadata, cutoff, base_url).get(key) == metadata.get(key),
{
    let kept = old_enough(metadata, cutoff);
    let body = served_metadata(metadata, cutoff, base_url);
    if kept.len() > 0 {
        let fewer = npm::keep_versions(metadata, kept);
        npm::lemma_member_set(metadata, fewer, "versions"@, key);
        let left = npm::listing(metadata, kept);
        npm::lemma_member_set(fewer, left, "dist-tags"@, key);
        npm::lemma_member_set(left, body, "versions"@, key);
    } else {
        let left = filtered(metadata, cutoff);
        if let Ok(times) = delay_check::field_times(time_field(metadata)) {
            let dropped = drop_young(metadata, times, cutoff);
            npm::lemma_member_set(metadata, dropped, "versions"@, key);
            npm::lemma_member_set(dropped, left, "dist-tags"@, key);
        }
        npm::lemma_member_set(left, body, "versions"@, key);
    }
}

/// The answer for a version that is withheld, given how its time is written and
/// the version that is suggested in its place.
pub open spec fn withheld(
    package: Seq<char>,
    version: Seq<char>,
    days: i64,
    published: Seq<char>,
    suggested: Option<Seq<char>>,
) -> ReplyView {
    let plain = ReplyView::labelled_json(
        403,
        denial(package, version, too_recent(days), suggested).put(
            "publish_time"@,
            JsonView::Str(published),
        ),
    ).header("X-Delay-Original-Version"@, version);
    (match suggested {
        Some(s) => plain.header("X-Delay-Suggested-Version"@, s),
        None => plain,
    }).header("X-Delay-Reason"@, "Version too recent"@)
}

/// The answer for a version that is withheld, given how its time is written and
/// the version that is suggested in its place.
pub fn withheld_reply(
    package: &str,
    version: &str,
    days: i64,
    published: &str,
    suggested: &Option<String>,
) -> (r: Reply)
    ensures
        r@ == withheld(package@, version@, days, published@, text::opt_view(*suggested)),
{
    let reason = too_recent_text(days);
    let body = denial_json(package, version, reason.as_str(), suggested).put(
        "publish_time",
        Json::string(published),
    );
    let mut reply = Reply::labelled_json(403, body).header("X-Delay-Original-Version", version);
    if let Some(s) = suggested {
        reply = reply.header("X-Delay-Suggested-Version", s.as_str());
    }
    reply.header("X-Delay-Reason", "Version too recent")
}

/// The answer for a version, given the times of all versions.
pub open spec fn version_reply(
    config: Config,
    days: i64,
    cutoff: Timestamp,
    package: Seq<char>,
    version: Seq<char>,
    times: Seq<(Seq<char>, Timestamp)>,
) -> ReplyView {
    match delay_check::check(times, cutoff, version) {
        Ok(CheckView::Allowed) => ReplyView::redirect(
            tarball_url(
                config.npm_download_registry@,
                package,
                text::after_last(package, '/'),
                version,
            ),
        ),
        Ok(CheckView::Denied { publish_time }) => withheld(
            package,
            version,
            days,
            timestamp::rfc3339_text(publish_time.secs, publish_time.nanos),
            suggestion(times, cutoff, version),
        ),
        Ok(CheckView::Downgraded { suggested_version, .. }) => ReplyView::redirect(
            tarball_url(
                config.npm_download_registry@,
                package,
                text::after_last(package, '/'),
                suggested_version,
            ),
        ).header("X-Delay-Redirected-Version"@, suggested_version),
        Err(e) => ReplyView::error(500, "Version check error: "@ + e.message()),
    }
}

/// Answers for a version, given the times of all versions, and logs the check.
pub fn answer_version(
    config: &Config,
    checker: &DelayChecker,
    package: &str,
    version: &str,
    time_info: &VersionTimeInfo,
    client_ip: Option<&str>,
) -> (r: (Reply, Vec<DelayLogEntry>))
    ensures
        delay_logger::all_dated(r.1@),
        r.0@ == version_reply(
            *config,
            checker.days(),
            checker.cutoff(),
            package@,
            version@,
            time_info@,
        ),
        delay_logger::log_views(r.1@) == npm::version_lines(
            checker.days(),
            checker.cutoff(),
            package@,
            version@,
            time_info@,
            text::slice_view(client_ip),
        ),
{
    let logs = npm::log_version(checker, package, version, time_info, client_ip);
    let registry = config.npm_download_registry.as_str();
    let file = text::last_piece(package, '/');
    let reply = match checker.check_version(version, time_info) {
        Ok(VersionCheckResult::Allowed) => {
            let url = tarball_address(registry, package, file, version);
            Reply::redirect(url.as_str())
        },
        Ok(VersionCheckResult::Denied { publish_time }) => {
            let published = timestamp::rfc3339(&publish_time);
            let suggested = suggested_version(checker, version, time_info);
            withheld_reply(package, version, checker.delay_days(), published.as_str(), &suggested)
        },
        Ok(VersionCheckResult::Downgraded { suggested_version, .. }) => {
            let url = tarball_address(registry, package, file, suggested_version.as_str());
            Reply::redirect(url.as_str()).header(
                "X-Delay-Redirected-Version",
                suggested_version.as_str(),
            )
        },
        Err(e) => {
            let m = "Version check error: ".to_owned().concat(e.to_string().as_str());
            Reply::error(500, m.as_str())
        },
    };
    (reply, logs)
}

/// Answers for a version of a package, given the metadata of the package, and logs
/// the check.
pub fn handle_npm_version(
    config: &Config,
    checker: &DelayChecker,
    package: &str,
    version: &str,
    metadata: &Json,
    client_ip: Option<&str>,
) -> (r: (Reply, Vec<DelayLogEntry>))
    ensures
        delay_logger::all_dated(r.1@),
        match delay_check::field_times(time_field(metadata@)) {
            Ok(times) => {
                &&& r.0@ == version_reply(
                    *config,
                    checker.days(),
                    checker.cutoff(),
                    package@,
                    version@,
                    times,
                )
                &&& delay_logger::log_views(r.1@) == npm::version_lines(
                    checker.days(),
                    checker.cutoff(),
                    package@,
                    version@,
                    times,
                    text::slice_view(client_ip),
                )
            },
            Err(e) => r.0@ == ReplyView::error(500, "Time parse error: "@ + e.message())
                && r.1@.len() == 0,
        },
{
    let info = match metadata.get("time") {
        Some(field) => checker.parse_time_field(field),
        None => checker.parse_time_field(&Json::object()),
    };
    match info {
        Ok(time_info) => answer_version(config, checker, package, version, &time_info, client_ip),
        Err(e) => {
            let m = "Time parse error: ".to_owned().concat(e.to_string().as_str());
            (Reply::error(500, m.as_str()), Vec::new())
        },
    }
}

/// A listed version that is too young is refused; if any version is old enough,
/// the refusal suggests one, in its body and in a header, and else it suggests
/// none.
pub proof fn law_refused_version(
    config: Config,
    days: i64,
    cutoff: Timestamp,
    package: Seq<char>,
    version: Seq<char>,
    times: Seq<(Seq<char>, Timestamp)>,
)
    requires
        names::in_order(times),
        names::lookup(times, version) matches Some(t) && !t.le(cutoff),
    ensures
        ({
            let reply = version_reply(config, days, cutoff, package, version, times);
            &&& reply.status == 403
            &&& match delay_check::newest(delay_check::eligible(times, cutoff)) {
                Some(best) => {
                    &&& reply.headers.contains(("X-Delay-Suggested-Version"@, best))
                    &&& reply.body matches BodyView::Json(body)
                    &&& body.get("suggested_version"@) == Some(JsonView::Str(best))
                    &&& names::lookup(times, best) matches Some(t)
                    &&& t.le(cutoff)
                },
                None => {
                    &&& reply.body matches BodyView::Json(body)
                    &&& body.get("suggested_version"@) == Some(JsonView::Null)
                    &&& forall|i: int|
                        0 <= i < reply.headers.len() ==> (#[trigger] reply.headers[i]).0
                            != "X-Delay-Suggested-Version"@
                },
            }
        }),
{
    reveal_strlit("publish_time");
    reveal_strlit("suggested_version");
    assert("publish_time"@.len() != "suggested_version"@.len());
    let reply = version_reply(config, days, cutoff, package, version, times);
    let suggested = JsonView::optional(suggestion(times, cutoff, version));
    let a = JsonView::object();
    let b = a.put("error"@, JsonView::Str("Version too recent for download"@));
    let c = b.put("package"@, JsonView::Str(package));
    let d = c.put("requested_version"@, JsonView::Str(version));
    let e = d.put("reason"@, JsonView::Str(too_recent(days)));
    let f = e.put("suggested_version"@, suggested);
    npm::lemma_member_set(a, b, "error"@, "error"@);
    npm::lemma_member_set(b, c, "package"@, "package"@);
    npm::lemma_member_set(c, d, "requested_version"@, "requested_version"@);
    npm::lemma_member_set(d, e, "reason"@, "reason"@);
    npm::lemma_member_set(e, f, "suggested_version"@, "suggested_version"@);
    assert(f.get("suggested_version"@) == Some(suggested));
    npm::lemma_member_set(
        f,
        reply.body->Json_0,
        "publish_time"@,
        "suggested_version"@,
    );
    match delay_check::newest(delay_check::eligible(times, cutoff)) {
        Some(best) => {
            assert(reply.headers[2] == ("X-Delay-Suggested-Version"@, best));
            delay_check::law_newest(delay_check::eligible(times, cutoff));
            delay_check::law_eligible(times, cutoff, best);
        },
        None => {
            reveal_strlit("X-Delay-Suggested-Version");
            reveal_strlit("X-Delay-Original-Version");
            reveal_strlit("X-Delay-Reason");
            reveal_strlit("content-type");
            assert("X-Delay-Suggested-Version"@.len() == 25);
            assert("X-Delay-Original-Version"@.len() == 24);
            assert("X-Delay-Reason"@.len() == 14);
            assert("content-type"@.len() == 12);
            assert(reply.headers.len() == 3);
        },
    }
}

/// The identifier of a tarball in a download path.
pub open spec fn tarball_id(path: Seq<char>) -> Seq<char> {
    text::trim_end_text(text::trim_start(path, '/'), ".tgz"@)
}

/// The package and version of a tarball: those that its identifier names, else
/// those that are found in its file name.
pub open spec fn tarball_parts(id: Seq<char>, found: Option<Seq<Option<Seq<char>>>>) -> Option<
    (Seq<char>, Seq<char>),
> {
    match (npm::id_parts(id), found) {
        (Some(parts), _) => Some(parts),
        (None, Some(groups)) => match (pattern::group(groups, 1), pattern::group(groups, 2)) {
            (Some(package), Some(version)) => Some((package, version)),
            _ => None,
        },
        (None, None) => None,
    }
}

/// The package and version of a tarball, or the answer where there are none, given
/// its identifier and the groups of its file name.
pub fn name_tarball(id: &str, found: &Option<Vec<Option<String>>>) -> (r: Result<
    (String, String),
    Reply,
>)
    ensures
        match r {
            Ok((package, version)) => tarball_parts(id@, pattern::match_view(*found)) == Some(
                (package@, version@),
            ),
            Err(reply) => tarball_parts(id@, pattern::match_view(*found)) is None && reply@
                == ReplyView::error(400, "Invalid tarball filename format"@),
        },
{
    if let Some(parts) = npm::split_id(id) {
        return Ok(parts);
    }
    if let Some(groups) = found {
        if let Some(package) = pattern::group_of(groups, 1) {
            if let Some(version) = pattern::group_of(groups, 2) {
                return Ok((package.to_owned(), version.to_owned()));
            }
        }
    }
    Err(Reply::error(400, "Invalid tarball filename format"))
}

/// The package and version that a download path asks for.
pub open spec fn asked_tarball(path: Seq<char>) -> Option<(Seq<char>, Seq<char>)> {
    tarball_parts(
        tarball_id(path),
        pattern::first_match(
            r"^(.+)-(\d+\.\d+\.\d+(?:-.+)?)\.tgz$"@,
            text::after_last(path, '/'),
        ),
    )
}

/// The package and version that a download path asks for, or the answer where it
/// names none.
pub fn dl_request(path: &str) -> (r: Result<(String, String), Reply>)
    ensures
        match r {
            Ok((package, version)) => asked_tarball(path@) == Some((package@, version@)),
            Err(reply) => asked_tarball(path@) is None && reply@ == ReplyView::error(
                400,
                "Invalid tarball filename format"@,
            ),
        },
{
    proof {
        reveal_strlit(".tgz");
    }
    let id = text::trim_end_str(text::trim_start_char(path, '/'), ".tgz");
    let filename = text::last_piece(path, '/');
    let found = pattern::captures(r"^(.+)-(\d+\.\d+\.\d+(?:-.+)?)\.tgz$", filename);
    name_tarball(id, &found)
}

/// Decides what is done for a tarball, given the metadata of its package, and logs
/// the check.
pub fn dl_handler(
    config: &Config,
    checker: &DelayChecker,
    path: &str,
    metadata: &Json,
    client_ip: Option<&str>,
) -> (r: (PackageAction, Vec<DelayLogEntry>))
    ensures
        delay_logger::all_dated(r.1@),
        match (asked_tarball(path@), npm::times_or_reply(metadata@)) {
            (None, _) => r.0@ == PackageActionView::Answer(
                ReplyView::error(400, "Invalid tarball filename format"@),
            ) && r.1@.len() == 0,
            (Some(_), Err(reply)) => r.0@ == PackageActionView::Answer(reply) && r.1@.len() == 0,
            (Some((package, version)), Ok(times)) => {
                &&& r.0@ == npm::download_action(
                    *config,
                    checker.days(),
                    checker.cutoff(),
                    package,
                    version,
                    times,
                )
                &&& delay_logger::log_views(r.1@) == npm::download_lines(
                    checker.days(),
                    checker.cutoff(),
                    package,
                    version,
                    times,
                    text::slice_view(client_ip),
                )
            },
        },
{
    match dl_request(path) {
        Err(reply) => (PackageAction::Answer(reply), Vec::new()),
        Ok((package, version)) => npm::handle_npm_download(
            config,
            checker,
            package.as_str(),
            version.as_str(),
            metadata,
            client_ip,
        ),
    }
}

/// The path of a tarball in the addresses that served metadata holds is read back
/// as the package and version that it was made for.
pub proof fn law_tarball_path_read_back(package: Seq<char>, version: Seq<char>)
    requires
        package.len() > 0,
        package[0] != '/',
        version.len() > 0,
        !version.contains('@'),
        !".tgz"@.is_suffix_of(package + "@"@ + version),
    ensures
        asked_tarball(package + "@"@ + version) == Some((package, version)),
        forall|base_url: Seq<char>| #[trigger]
            npm::mirror_tarball(base_url, package, version) == base_url + "/dl/"@ + (package + "@"@
                + version),
{
    npm::law_id_read_back(package, version);
    let id = package + "@"@ + version;
    assert(id[0] == package[0]);
    assert forall|base_url: Seq<char>| #[trigger]
        npm::mirror_tarball(base_url, package, version) == base_url + "/dl/"@ + id by {
        assert(npm::mirror_tarball(base_url, package, version) =~= base_url + "/dl/"@ + id);
    }
}

/// What to do for a module request: answer, pass on what a server sends, answer
/// with the info file of a version, or check a version by its info file and then
/// redirect to another file of it or pass that on.
#[derive(Debug, PartialEq)]
pub enum ModuleRequest {
    Answer(Reply),
    Proxy { url: String },
    Info { url: String, module: String, version: String },
    File { info_url: String, url: String, redirect: bool, module: String, version: String },
}

/// What a request says.
#[verifier::ext_equal]
pub enum ModuleRequestView {
    Answer(ReplyView),
    Proxy { url: Seq<char> },
    Info { url: Seq<char>, module: Seq<char>, version: Seq<char> },
    File {
        info_url: Seq<char>,
        url: Seq<char>,
        redirect: bool,
        module: Seq<char>,
        version: Seq<char>,
    },
}

impl View for ModuleRequest {
    type V = ModuleRequestView;

    open spec fn view(&self) -> ModuleRequestView {
        match self {
            ModuleRequest::Answer(r) => ModuleRequestView::Answer(r@),
            ModuleRequest::Proxy { url } => ModuleRequestView::Proxy { url: url@ },
            ModuleRequest::Info { url, module, version } => ModuleRequestView::Info {
                url: url@,
                module: module@,
                version: version@,
            },
            ModuleRequest::File {
                info_url,
                url,
                redirect,
                module,
                version,
            } => ModuleRequestView::File {
                info_url: info_url@,
                url: url@,
                redirect: *redirect,
                module: module@,
                version: version@,
            },
        }
    }
}

/// Where `@v` first stands in a path; its length where it does not.
pub open spec fn at_v(parts: Seq<Seq<char>>) -> int
    decreases parts.len(),
{
    if parts.len() == 0 || parts[0] == "@v"@ {
        0
    } else {
        1 + at_v(parts.skip(1))
    }
}

/// Where a file of a module version is found.
pub open spec fn module_url(
    registry: Seq<char>,
    module: Seq<char>,
    version: Seq<char>,
    kind: Seq<char>,
) -> Seq<char> {
    text::trim_end(registry, '/') + "/"@ + module + "/@v/"@ + version + "."@ + kind
}

/// What is done for a file of a module.
pub open spec fn module_file(config: Config, module: Seq<char>, file: Seq<char>) -> ModuleRequestView {
    if file == "list"@ {
        ModuleRequestView::Proxy {
            url: text::trim_end(config.gomod_registry@, '/') + "/"@ + module + "/@v/list"@,
        }
    } else if ".info"@.is_suffix_of(file) {
        let version = text::trim_end_text(file, ".info"@);
        ModuleRequestView::Info {
            url: module_url(config.gomod_registry@, module, version, "info"@),
            module,
            version,
        }
    } else if ".mod"@.is_suffix_of(file) {
        let version = text::trim_end_text(file, ".mod"@);
        ModuleRequestView::File {
            info_url: module_url(config.gomod_registry@, module, version, "info"@),
            url: module_url(config.gomod_registry@, module, version, "mod"@),
            redirect: false,
            module,
            version,
        }
    } else if ".zip"@.is_suffix_of(file) {
        let version = text::trim_end_text(file, ".zip"@);
        ModuleRequestView::File {
            info_url: module_url(config.gomod_registry@, module, version, "info"@),
            url: module_url(config.gomod_download_registry@, module, version, "zip"@),
            redirect: true,
            module,
            version,
        }
    } else {
        ModuleRequestView::Answer(
            ReplyView::error(400, "Unknown Go module endpoint: "@ + file),
        )
    }
}

/// What is done for a path below the Go module endpoint.
pub open spec fn module_request(config: Config, path: Seq<char>) -> ModuleRequestView {
    let parts = text::segments(path);
    let at = at_v(parts);
    if at == parts.len() {
        ModuleRequestView::Answer(
            ReplyView::redirect(
                text::trim_end(config.gomod_registry@, '/') + "/"@ + text::join(parts, "/"@),
            ),
        )
    } else if at + 1 == parts.len() {
        ModuleRequestView::Answer(ReplyView::error(400, "Missing version information"@))
    } else {
        module_file(config, text::join(parts.take(at), "/"@), parts[at + 1])
    }
}

fn find_at_v(parts: &Vec<String>) -> (r: usize)
    ensures
        r == at_v(text::views(parts@)),
        r <= parts@.len(),
{
    let ghost all = text::views(parts@);
    let mut i: usize = 0;
    proof {
        assert(all.skip(0) =~= all);
    }
    while i < parts.len() && !text::same(parts[i].as_str(), "@v")
        invariant
            i <= parts@.len(),
            all == text::views(parts@),
            at_v(all) == i + at_v(all.skip(i as int)),
        decreases parts@.len() - i,
    {
        proof {
            assert(all.skip(i as int).skip(1) =~= all.skip(i + 1));
        }
        i += 1;
    }
    i
}

fn module_address(registry: &str, module: &str, version: &str, kind: &str) -> (r: String)
    ensures
        r@ == module_url(registry@, module@, version@, kind@),
{
    text::trim_end_char(registry, '/').to_owned().concat("/").concat(module).concat("/@v/").concat(
        version,
    ).concat(".").concat(kind)
}

/// Decides what is done for a file of a module.
pub fn handle_gomod_version(config: &Config, module: &str, file: &str) -> (r: ModuleRequest)
    ensures
        r@ == module_file(*config, module@, file@),
{
    proof {
        reveal_strlit(".info");
        reveal_strlit(".mod");
        reveal_strlit(".zip");
    }
    let registry = config.gomod_registry.as_str();
    if text::same(file, "list") {
        let url = text::trim_end_char(registry, '/').to_owned().concat("/").concat(module).concat(
            "/@v/list",
        );
        ModuleRequest::Proxy { url }
    } else if text::ends_with(file, ".info") {
        let version = text::trim_end_str(file, ".info");
        ModuleRequest::Info {
            url: module_address(registry, module, version, "info"),
            module: module.to_owned(),
            version: version.to_owned(),
        }
    } else if text::ends_with(file, ".mod") {
        let version = text::trim_end_str(file, ".mod");
        ModuleRequest::File {
            info_url: module_address(registry, module, version, "info"),
            url: module_address(registry, module, version, "mod"),
            redirect: false,
            module: module.to_owned(),
            version: version.to_owned(),
        }
    } else if text::ends_with(file, ".zip") {
        let version = text::trim_end_str(file, ".zip");
        let downloads = config.gomod_download_registry.as_str();
        ModuleRequest::File {
            info_url: module_address(registry, module, version, "info"),
            url: module_address(downloads, module, version, "zip"),
            redirect: true,
            module: module.to_owned(),
            version: version.to_owned(),
        }
    } else {
        let m = "Unknown Go module endpoint: ".to_owned().concat(file);
        ModuleRequest::Answer(Reply::error(400, m.as_str()))
    }
}

/// The module that a path below the Go module endpoint is about.
pub open spec fn asked_module(path: Seq<char>) -> Seq<char> {
    let parts = text::segments(path);
    let at = at_v(parts);
    if at == parts.len() && at > 0 && parts.last() == "@latest"@ {
        text::join(parts.take(at - 1), "/"@)
    } else {
        text::join(parts.take(at), "/"@)
    }
}

/// The module that a path below the Go module endpoint is about.
pub fn module_of(path: &str) -> (r: String)
    ensures
        r@ == asked_module(path@),
{
    let parts = text::path_segments(path);
    let ghost all = text::views(parts@);
    proof {
        assert(all.len() == parts@.len());
    }
    let mut end = find_at_v(&parts);
    if end == parts.len() && end > 0 && text::same(parts[end - 1].as_str(), "@latest") {
        end -= 1;
    }
    proof {
        assert(all.subrange(0, end as int) =~= all.take(end as int));
    }
    text::join_range(&parts, 0, end, "/")
}

/// Decides what is done for a path below the Go module endpoint.
pub fn gomod_handler(config: &Config, path: &str) -> (r: ModuleRequest)
    ensures
        r@ == module_request(*config, path@),
{
    let parts = text::path_segments(path);
    let ghost all = text::views(parts@);
    proof {
        assert(all.len() == parts@.len());
    }
    let at = find_at_v(&parts);
    if at == parts.len() {
        let joined = text::join_all(&parts, "/");
        let url = text::trim_end_char(config.gomod_registry.as_str(), '/').to_owned().concat(
            "/",
        ).concat(joined.as_str());
        return ModuleRequest::Answer(Reply::redirect(url.as_str()));
    }
    if at == parts.len() - 1 {
        return ModuleRequest::Answer(Reply::error(400, "Missing version information"));
    }
    let module = text::join_range(&parts, 0, at, "/");
    proof {
        assert(all.subrange(0, at as int) =~= all.take(at as int));
    }
    handle_gomod_version(config, module.as_str(), parts[at + 1].as_str())
}

/// The answer for a module version that is withheld.
pub open spec fn module_withheld(
    module: Seq<char>,
    version: Seq<char>,
    days: i64,
    published: Seq<char>,
) -> ReplyView {
    ReplyView::labelled_json(
        403,
        JsonView::object().put("error"@, JsonView::Str("Version too recent for access"@)).put(
            "module"@,
            JsonView::Str(module),
        ).put("requested_version"@, JsonView::Str(version)).put(
            "reason"@,
            JsonView::Str(too_recent(days)),
        ).put("publish_time"@, JsonView::Str(published)).put(
            "suggestion"@,
            JsonView::Str("Try again later or use an older version"@),
        ),
    )
}

fn module_withheld_reply(module: &str, version: &str, days: i64, published: &str) -> (r: Reply)
    ensures
        r@ == module_withheld(module@, version@, days, published@),
{
    Reply::labelled_json(
        403,
        Json::object().put("error", Json::string("Version too recent for access")).put(
            "module",
            Json::string(module),
        ).put("requested_version", Json::string(version)).put(
            "reason",
            Json::Str(too_recent_text(days)),
        ).put("publish_time", Json::string(published)).put(
            "suggestion",
            Json::string("Try again later or use an older version"),
        ),
    )
}

/// An info file, or the answer where it could not be had.
pub open spec fn info_or_reply(fetched: FetchedView) -> Result<JsonView, ReplyView> {
    match fetched {
        FetchedView::Failed(e) => Err(ReplyView::error(502, "Upstream fetch failed: "@ + e)),
        FetchedView::Answered { status, body } => if !fetch::success(status) {
            Err(ReplyView::error(status, "Upstream error"@))
        } else {
            match body {
                Err(e) => Err(ReplyView::error(502, "Failed to parse response: "@ + e)),
                Ok(info) => Ok(info),
            }
        },
    }
}

fn read_info(fetched: Fetched) -> (r: Result<Json, Reply>)
    ensures
        match r {
            Ok(info) => info_or_reply(fetched@) == Ok::<JsonView, ReplyView>(info@),
            Err(reply) => info_or_reply(fetched@) == Err::<JsonView, ReplyView>(reply@),
        },
{
    match fetched {
        Fetched::Failed(e) => {
            let m = "Upstream fetch failed: ".to_owned().concat(e.as_str());
            Err(Reply::error(502, m.as_str()))
        },
        Fetched::Answered { status, body } => {
            if !fetch::is_success(status) {
                return Err(Reply::error(status, "Upstream error"));
            }
            match body {
                Err(e) => {
                    let m = "Failed to parse response: ".to_owned().concat(e.as_str());
                    Err(Reply::error(502, m.as_str()))
                },
                Ok(info) => Ok(info),
            }
        },
    }
}

/// The moment that the time of an info file names.
pub open spec fn info_time(fetched: FetchedView) -> Option<Timestamp> {
    match info_or_reply(fetched) {
        Ok(info) => match info.get_text("Time"@) {
            Some(time) => match timestamp::rfc3339_time(time) {
                Some((secs, nanos)) => Some(Timestamp { secs, nanos }),
                None => None,
            },
            None => None,
        },
        Err(_) => None,
    }
}

fn named_time(fetched: &Fetched) -> (r: Option<Timestamp>)
    ensures
        r == info_time(fetched@),
{
    match fetched {
        Fetched::Answered { status, body: Ok(info) } => {
            if !fetch::is_success(*status) {
                return None;
            }
            match info.get_str("Time") {
                Some(time) => timestamp::parse_rfc3339(time),
                None => None,
            }
        },
        _ => None,
    }
}

/// The lines of the log for a module version, given its time.
pub open spec fn module_lines(
    days: i64,
    cutoff: Timestamp,
    module: Seq<char>,
    version: Seq<char>,
    named: Option<Timestamp>,
    client_ip: Option<Seq<char>>,
) -> Seq<LogView> {
    match named {
        Some(t) => if t.le(cutoff) {
            seq![LogView::allowed(PackageType::GoMod, module, version, client_ip)]
        } else {
            seq![
                LogView::blocked(PackageType::GoMod, module, version, too_recent(days), client_ip),
            ]
        },
        None => Seq::empty(),
    }
}

/// The lines of the log for a module version, given its time.
pub fn log_module(
    config: &Config,
    checker: &DelayChecker,
    module: &str,
    version: &str,
    named: Option<Timestamp>,
    client_ip: Option<&str>,
) -> (r: Vec<DelayLogEntry>)
    ensures
        delay_logger::all_dated(r@),
        delay_logger::log_views(r@) == module_lines(
            config.delay_days,
            checker.cutoff(),
            module@,
            version@,
            named,
            text::slice_view(client_ip),
        ),
{
    let logger = DelayLogger::new();
    match named {
        Some(t) => if checker.is_version_allowed(&t) {
            delay_logger::one_entry(
                logger.log_allowed(PackageType::GoMod, module, version, client_ip),
            )
        } else {
            let reason = too_recent_text(config.delay_days);
            delay_logger::one_entry(
                logger.log_blocked(PackageType::GoMod, module, version, reason.as_str(), client_ip),
            )
        },
        None => delay_logger::no_entries(),
    }
}

/// The answer with the info file of a module version, given the moment that its
/// time names.
pub open spec fn info_reply(
    module: Seq<char>,
    version: Seq<char>,
    days: i64,
    cutoff: Timestamp,
    fetched: FetchedView,
    named: Option<Timestamp>,
) -> ReplyView {
    match info_or_reply(fetched) {
        Err(reply) => reply,
        Ok(info) => match (info.get_text("Time"@), named) {
            (Some(time), Some(t)) if !t.le(cutoff) => module_withheld(module, version, days, time),
            _ => ReplyView::labelled_json(200, info),
        },
    }
}

/// Answers with the info file of a module version, given the moment that its
/// time names.
pub fn answer_info(
    config: &Config,
    checker: &DelayChecker,
    module: &str,
    version: &str,
    fetched: Fetched,
    named: Option<Timestamp>,
) -> (r: Reply)
    ensures
        r@ == info_reply(
            module@,
            version@,
            config.delay_days,
            checker.cutoff(),
            fetched@,
            named,
        ),
{
    let info = match read_info(fetched) {
        Ok(info) => info,
        Err(reply) => return reply,
    };
    if let Some(time) = info.get_str("Time") {
        if let Some(t) = named {
            if !checker.is_version_allowed(&t) {
                return module_withheld_reply(module, version, config.delay_days, time);
            }
        }
    }
    Reply::labelled_json(200, info)
}

/// Answers with the info file of a module version, from what came of asking for
/// it, and logs the check.
pub fn handle_gomod_info(
    config: &Config,
    checker: &DelayChecker,
    module: &str,
    version: &str,
    fetched: Fetched,
    client_ip: Option<&str>,
) -> (r: (Reply, Vec<DelayLogEntry>))
    ensures
        delay_logger::all_dated(r.1@),
        r.0@ == info_reply(
            module@,
            version@,
            config.delay_days,
            checker.cutoff(),
            fetched@,
            info_time(fetched@),
        ),
        delay_logger::log_views(r.1@) == module_lines(
            config.delay_days,
            checker.cutoff(),
            module@,
            version@,
            info_time(fetched@),
            text::slice_view(client_ip),
        ),
{
    let named = named_time(&fetched);
    let logs = log_module(config, checker, module, version, named, client_ip);
    (answer_info(config, checker, module, version, fetched, named), logs)
}

/// The answer in place of a file of a module version, given the info file of the
/// version and the moment that its time names; none where the file is served.
pub open spec fn file_refusal(
    module: Seq<char>,
    version: Seq<char>,
    days: i64,
    cutoff: Timestamp,
    fetched: FetchedView,
    named: Option<Timestamp>,
) -> Option<ReplyView> {
    match info_or_reply(fetched) {
        Err(reply) => Some(reply),
        Ok(info) => match (info.get_text("Time"@), named) {
            (Some(time), Some(t)) => if t.le(cutoff) {
                None
            } else {
                Some(module_withheld(module, version, days, time))
            },
            _ => Some(ReplyView::error(502, "Unable to determine version age"@)),
        },
    }
}

/// Answers in place of a file of a module version, given the info file of the
/// version and the moment that its time names, unless the file is served.
pub fn refuse_file(
    config: &Config,
    checker: &DelayChecker,
    module: &str,
    version: &str,
    fetched: Fetched,
    named: Option<Timestamp>,
) -> (r: Option<Reply>)
    ensures
        match r {
            Some(reply) => file_refusal(
                module@,
                version@,
                config.delay_days,
                checker.cutoff(),
                fetched@,
                named,
            ) == Some(reply@),
            None => file_refusal(
                module@,
                version@,
                config.delay_days,
                checker.cutoff(),
                fetched@,
                named,
            ) is None,
        },
{
    let info = match read_info(fetched) {
        Ok(info) => info,
        Err(reply) => return Some(reply),
    };
    if let Some(time) = info.get_str("Time") {
        if let Some(t) = named {
            return if checker.is_version_allowed(&t) {
                None
            } else {
                Some(module_withheld_reply(module, version, config.delay_days, time))
            };
        }
    }
    Some(Reply::error(502, "Unable to determine version age"))
}

/// Checks a module version before a file of it is served, from what came of
/// asking for its info file, and logs the check. The file is served exactly if
/// the info file shows that the version is old enough; else there is an answer in
/// its place.
pub fn check_module_file(
    config: &Config,
    checker: &DelayChecker,
    module: &str,
    version: &str,
    fetched: Fetched,
    client_ip: Option<&str>,
) -> (r: (Option<Reply>, Vec<DelayLogEntry>))
    ensures
        delay_logger::all_dated(r.1@),
        r.0 is None <==> (info_time(fetched@) matches Some(t) && t.le(checker.cutoff())),
        r.0 matches Some(reply) ==> file_refusal(
            module@,
            version@,
            config.delay_days,
            checker.cutoff(),
            fetched@,
            info_time(fetched@),
        ) == Some(reply@),
        delay_logger::log_views(r.1@) == module_lines(
            config.delay_days,
            checker.cutoff(),
            module@,
            version@,
            info_time(fetched@),
            text::slice_view(client_ip),
        ),
{
    let named = named_time(&fetched);
    let logs = log_module(config, checker, module, version, named, client_ip);
    (refuse_file(config, checker, module, version, fetched, named), logs)
}

/// No file of a young version is redirected to or passed on: what is passed on
/// without a check is the list of versions alone, what is answered at once is an
/// error, and every other file waits for the check of its version by the info
/// file of that version, which refuses a young one.
pub proof fn law_young_files_withheld(
    config: Config,
    cutoff: Timestamp,
    module: Seq<char>,
    file: Seq<char>,
    fetched: FetchedView,
)
    ensures
        match module_file(config, module, file) {
            ModuleRequestView::Answer(reply) => reply.status == 400,
            ModuleRequestView::Proxy { .. } => file == "list"@,
            ModuleRequestView::Info { url, module: named, version } => {
                &&& named == module
                &&& url == module_url(config.gomod_registry@, module, version, "info"@)
                &&& (info_time(fetched) matches Some(t) && !t.le(cutoff)) ==> info_reply(
                    module,
                    version,
                    config.delay_days,
                    cutoff,
                    fetched,
                    info_time(fetched),
                ).status == 403
            },
            ModuleRequestView::File { info_url, url, redirect, module: named, version } => {
                &&& named == module
                &&& info_url == module_url(config.gomod_registry@, module, version, "info"@)
                &&& url == (if redirect {
                    module_url(config.gomod_download_registry@, module, version, "zip"@)
                } else {
                    module_url(config.gomod_registry@, module, version, "mod"@)
                })
                &&& (info_time(fetched) matches Some(t) && !t.le(cutoff)) ==> (file_refusal(
                    module,
                    version,
                    config.delay_days,
                    cutoff,
                    fetched,
                    info_time(fetched),
                ) matches Some(reply) && reply.status == 403)
            },
        },
{
}

/// Every check of a module version whose time is known is logged, with what was
/// decided.
pub proof fn law_module_check_logged(
    days: i64,
    cutoff: Timestamp,
    module: Seq<char>,
    version: Seq<char>,
    publish_time: Timestamp,
    client_ip: Option<Seq<char>>,
)
    ensures
        ({
            let lines = module_lines(
                days,
                cutoff,
                module,
                version,
                Some(publish_time),
                client_ip,
            );
            &&& lines.len() == 1
            &&& lines[0].package_name == module
            &&& lines[0].original_version == version
            &&& lines[0].client_ip == client_ip
            &&& lines[0].action == (if publish_time.le(cutoff) {
                delay_logger::DelayAction::Allowed
            } else {
                delay_logger::DelayAction::Denied
            })
        }),
{
}

/// What a path below the PyPI endpoint asks for: the index, the list of files of
/// a package, or a file.
#[derive(Debug, PartialEq)]
pub enum PypiRequest {
    Answer(Reply),
    Index,
    Package { package: String },
    Download { path: String },
}

/// What a request says.
#[verifier::ext_equal]
pub enum PypiRequestView {
    Answer(ReplyView),
    Index,
    Package { package: Seq<char> },
    Download { path: Seq<char> },
}

impl View for PypiRequest {
    type V = PypiRequestView;

    open spec fn view(&self) -> PypiRequestView {
        match self {
            PypiRequest::Answer(r) => PypiRequestView::Answer(r@),
            PypiRequest::Index => PypiRequestView::Index,
            PypiRequest::Package { package } => PypiRequestView::Package { package: package@ },
            PypiRequest::Download { path } => PypiRequestView::Download { path: path@ },
        }
    }
}

/// What a path below the PyPI endpoint asks for.
pub open spec fn pypi_request(path: Seq<char>) -> PypiRequestView {
    let parts = text::segments(path);
    if parts.len() == 0 {
        PypiRequestView::Answer(ReplyView::error(400, "Missing path"@))
    } else {
        let rest = text::join(parts.subrange(1, parts.len() as int), "/"@);
        if parts[0] == "simple"@ {
            if parts.len() == 1 {
                PypiRequestView::Index
            } else {
                PypiRequestView::Package { package: rest }
            }
        } else if parts[0] == "packages"@ {
            PypiRequestView::Download { path: rest }
        } else {
            PypiRequestView::Answer(
                ReplyView::error(400, "Unknown PyPI endpoint: "@ + parts[0]),
            )
        }
    }
}

/// Finds what a path below the PyPI endpoint asks for.
pub fn pypi_handler(path: &str) -> (r: PypiRequest)
    ensures
        r@ == pypi_request(path@),
{
    let parts = text::path_segments(path);
    proof {
        assert(text::views(parts@).len() == parts@.len());
    }
    if parts.len() == 0 {
        return PypiRequest::Answer(Reply::error(400, "Missing path"));
    }
    let rest = text::join_range(&parts, 1, parts.len(), "/");
    if text::same(parts[0].as_str(), "simple") {
        if parts.len() == 1 {
            PypiRequest::Index
        } else {
            PypiRequest::Package { package: rest }
        }
    } else if text::same(parts[0].as_str(), "packages") {
        PypiRequest::Download { path: rest }
    } else {
        let m = "Unknown PyPI endpoint: ".to_owned().concat(parts[0].as_str());
        PypiRequest::Answer(Reply::error(400, m.as_str()))
    }
}

/// The answer where nothing could be passed on: upstream was not reached, or its
/// answer could not be read.
pub fn proxy_failure(reached: bool, error: &str) -> (r: Reply)
    ensures
        r@ == ReplyView::error(
            502,
            (if reached {
                "Failed to read response body: "@
            } else {
                "Upstream fetch failed: "@
            }) + error@,
        ),
{
    let m = if reached {
        "Failed to read response body: ".to_owned().concat(error)
    } else {
        "Upstream fetch failed: ".to_owned().concat(error)
    };
    Reply::error(502, m.as_str())
}

/// A path below a module is split into the module and the file, however many pieces the
/// module has.
pub proof fn law_module_path(config: Config, pieces: Seq<Seq<char>>, file: Seq<char>)
    requires
        pieces.len() > 0,
        forall|i: int|
            0 <= i < pieces.len() ==> !(#[trigger] pieces[i]).contains('/') && pieces[i].len() > 0
                && pieces[i] != "@v"@,
        file.len() > 0,
        !file.contains('/'),
    ensures
        ({
            let module = text::join(pieces, "/"@);
            let path = module + "/@v/"@ + file;
            &&& module_request(config, path) == module_file(config, module, file)
            &&& module_request(config, "/"@ + path) == module_file(config, module, file)
            &&& asked_module(path) == module
        }),
{
    reveal_strlit("/");
    reveal_strlit("@v");
    reveal_strlit("/@v/");
    let sep = seq!['/'];
    assert("/"@ =~= sep);
    let module = text::join(pieces, sep);
    let path = module + "/@v/"@ + file;
    let mark = seq!["@v"@, file];
    assert(mark.drop_last() =~= seq!["@v"@]);
    assert(text::join(seq!["@v"@], sep) == "@v"@);
    assert(module + sep + text::join(mark, sep) =~= path);
    lemma_pieces(pieces, mark);
    lemma_at_v(pieces, mark);
    let parts = pieces + mark;
    assert(parts.take(pieces.len() as int) =~= pieces);
    assert(parts[pieces.len() as int + 1] == file);
}

proof fn lemma_pieces(pieces: Seq<Seq<char>>, rest: Seq<Seq<char>>)
    requires
        pieces.len() > 0,
        rest.len() > 0,
        forall|i: int|
            0 <= i < pieces.len() ==> !(#[trigger] pieces[i]).contains('/') && pieces[i].len() > 0,
        forall|i: int|
            0 <= i < rest.len() ==> !(#[trigger] rest[i]).contains('/') && rest[i].len() > 0,
    ensures
        ({
            let sep = seq!['/'];
            let path = text::join(pieces, sep) + sep + text::join(rest, sep);
            &&& text::segments(path) == pieces + rest
            &&& text::segments(sep + path) == pieces + rest
        }),
{
    let parts = pieces + rest;
    text::lemma_join_add(pieces, rest, seq!['/']);
    assert forall|i: int| 0 <= i < parts.len() implies !(#[trigger] parts[i]).contains('/')
        && parts[i].len() > 0 by {
        if i < pieces.len() {
            assert(parts[i] == pieces[i]);
        } else {
            assert(parts[i] == rest[i - pieces.len()]);
        }
    }
    text::law_segments(parts);
}

/// A path without the mark goes to the registry as it is, and one that ends in the mark
/// is refused.
pub proof fn law_module_unmarked(config: Config, pieces: Seq<Seq<char>>)
    requires
        pieces.len() > 0,
        forall|i: int|
            0 <= i < pieces.len() ==> !(#[trigger] pieces[i]).contains('/') && pieces[i].len() > 0
                && pieces[i] != "@v"@,
    ensures
        ({
            let module = text::join(pieces, "/"@);
            &&& module_request(config, module) matches ModuleRequestView::Answer(reply)
            &&& reply.status == 307
            &&& reply.headers == seq![
                ("location"@, text::trim_end(config.gomod_registry@, '/') + "/"@ + module),
            ]
            &&& module_request(config, module + "/@v"@) matches ModuleRequestView::Answer(refused)
            &&& refused.status == 400
        }),
{
    reveal_strlit("/");
    reveal_strlit("@v");
    reveal_strlit("/@v");
    let sep = seq!['/'];
    assert("/"@ =~= sep);
    let module = text::join(pieces, sep);
    text::law_segments(pieces);
    lemma_at_v(pieces, Seq::empty());
    assert(pieces + Seq::<Seq<char>>::empty() =~= pieces);
    let reply = module_request(config, module)->Answer_0;
    assert(reply.headers =~= seq![
        ("location"@, text::trim_end(config.gomod_registry@, '/') + "/"@ + module),
    ]);
    let mark = seq!["@v"@];
    lemma_pieces(pieces, mark);
    lemma_at_v(pieces, mark);
    assert(text::join(mark, sep) == "@v"@);
    assert(module + sep + "@v"@ =~= module + "/@v"@);
}

/// The module that is asked for its latest version is what stands before that word.
pub proof fn law_latest_module(pieces: Seq<Seq<char>>)
    requires
        pieces.len() > 0,
        forall|i: int|
            0 <= i < pieces.len() ==> !(#[trigger] pieces[i]).contains('/') && pieces[i].len() > 0
                && pieces[i] != "@v"@,
    ensures
        asked_module(text::join(pieces, "/"@) + "/@latest"@) == text::join(pieces, "/"@),
{
    reveal_strlit("/");
    reveal_strlit("@v");
    reveal_strlit("@latest");
    reveal_strlit("/@latest");
    let sep = seq!['/'];
    assert("/"@ =~= sep);
    assert("@latest"@.len() == 7 && "@v"@.len() == 2);
    let module = text::join(pieces, sep);
    let mark = seq!["@latest"@];
    lemma_pieces(pieces, mark);
    assert(text::join(mark, sep) == "@latest"@);
    assert(module + sep + "@latest"@ =~= module + "/@latest"@);
    let latest = pieces + mark;
    assert forall|i: int| 0 <= i < latest.len() implies #[trigger] latest[i] != "@v"@ by {
        if i < pieces.len() {
            assert(latest[i] == pieces[i]);
        }
    }
    lemma_at_v(latest, Seq::empty());
    assert(latest + Seq::<Seq<char>>::empty() =~= latest);
    assert(latest.take(latest.len() - 1) =~= pieces);
}

proof fn lemma_at_v(pieces: Seq<Seq<char>>, rest: Seq<Seq<char>>)
    requires
        forall|i: int| 0 <= i < pieces.len() ==> #[trigger] pieces[i] != "@v"@,
        rest.len() == 0 || rest[0] == "@v"@,
    ensures
        at_v(pieces + rest) == pieces.len(),
    decreases pieces.len(),
{
    let parts = pieces + rest;
    if pieces.len() == 0 {
        assert(parts =~= rest);
    } else {
        assert(parts[0] == pieces[0]);
        let tail = pieces.skip(1);
        assert forall|i: int| 0 <= i < tail.len() implies #[trigger] tail[i] != "@v"@ by {
            assert(tail[i] == pieces[i + 1]);
        }
        assert(parts.skip(1) =~= tail + rest);
        lemma_at_v(tail, rest);
    }
}

/// A file of a module names its version and comes from where its kind is kept: the list,
/// the information and the description from the registry, the archive from the download
/// registry, by a redirect; any other file is refused.
#[verifier::rlimit(40)]
pub proof fn law_module_file(config: Config, module: Seq<char>, version: Seq<char>)
    requires
        !".info"@.is_suffix_of(version),
        !".mod"@.is_suffix_of(version),
        !".zip"@.is_suffix_of(version),
    ensures
        ({
            let registry = text::trim_end(config.gomod_registry@, '/') + "/"@ + module + "/@v/"@;
            let downloads = text::trim_end(config.gomod_download_registry@, '/') + "/"@ + module
                + "/@v/"@;
            &&& module_file(config, module, "list"@) == ModuleRequestView::Proxy {
                url: registry + "list"@,
            }
            &&& module_file(config, module, version + ".info"@) == ModuleRequestView::Info {
                url: registry + version + ".info"@,
                module,
                version,
            }
            &&& module_file(config, module, version + ".mod"@) == ModuleRequestView::File {
                info_url: registry + version + ".info"@,
                url: registry + version + ".mod"@,
                redirect: false,
                module,
                version,
            }
            &&& module_file(config, module, version + ".zip"@) == ModuleRequestView::File {
                info_url: registry + version + ".info"@,
                url: downloads + version + ".zip"@,
                redirect: true,
                module,
                version,
            }
            &&& version != "list"@ ==> (module_file(config, module, version) matches
                ModuleRequestView::Answer(reply) && reply.status == 400)
        }),
{
    reveal_strlit(".info");
    reveal_strlit(".mod");
    reveal_strlit(".zip");
    reveal_strlit("list");
    reveal_strlit("info");
    reveal_strlit("mod");
    reveal_strlit("zip");
    reveal_strlit(".");
    reveal_strlit("/@v/");
    reveal_strlit("/@v/list");
    let registry = text::trim_end(config.gomod_registry@, '/') + "/"@ + module + "/@v/"@;
    let downloads = text::trim_end(config.gomod_download_registry@, '/') + "/"@ + module + "/@v/"@;
    assert(text::trim_end(config.gomod_registry@, '/') + "/"@ + module + "/@v/list"@ =~= registry
        + "list"@);
    assert(registry + version + "."@ + "info"@ =~= registry + version + ".info"@);
    assert(registry + version + "."@ + "mod"@ =~= registry + version + ".mod"@);
    assert(downloads + version + "."@ + "zip"@ =~= downloads + version + ".zip"@);
    lemma_endings(version);
}

proof fn lemma_endings(version: Seq<char>)
    requires
        !".info"@.is_suffix_of(version),
        !".mod"@.is_suffix_of(version),
        !".zip"@.is_suffix_of(version),
    ensures
        ({
            let a = version + ".info"@;
            let b = version + ".mod"@;
            let c = version + ".zip"@;
            &&& ".info"@.is_suffix_of(a) && a != "list"@
            &&& ".mod"@.is_suffix_of(b) && !".info"@.is_suffix_of(b) && b != "list"@
            &&& ".zip"@.is_suffix_of(c) && !".info"@.is_suffix_of(c) && !".mod"@.is_suffix_of(c)
            &&& c != "list"@
            &&& text::trim_end_text(a, ".info"@) == version
            &&& text::trim_end_text(b, ".mod"@) == version
            &&& text::trim_end_text(c, ".zip"@) == version
        }),
{
    reveal_strlit(".info");
    reveal_strlit(".mod");
    reveal_strlit(".zip");
    reveal_strlit("list");
    text::law_trim_ending(version, ".info"@);
    text::law_trim_ending(version, ".mod"@);
    text::law_trim_ending(version, ".zip"@);
    let a = version + ".info"@;
    let b = version + ".mod"@;
    let c = version + ".zip"@;
    assert(a.subrange(a.len() - 5, a.len() as int) =~= ".info"@);
    assert(a[a.len() - 1] == 'o' && "list"@[3] == 't');
    assert(b.subrange(b.len() - 4, b.len() as int) =~= ".mod"@);
    assert(b[b.len() - 1] == 'd' && ".info"@[4] == 'o');
    assert(c.subrange(c.len() - 4, c.len() as int) =~= ".zip"@);
    assert(c[c.len() - 1] == 'p' && ".mod"@[3] == 'd');
}

/// A version that is old enough is redirected to its tarball, which is named without the
/// scope of its package.
pub proof fn law_version_redirected(
    config: Config,
    days: i64,
    cutoff: Timestamp,
    scope: Seq<char>,
    name: Seq<char>,
    version: Seq<char>,
    times: Seq<(Seq<char>, Timestamp)>,
    t: Timestamp,
)
    requires
        names::lookup(times, version) == Some(t),
        t.le(cutoff),
        !name.contains('/'),
    ensures
        ({
            let registry = config.npm_download_registry@;
            let scoped = scope + "/"@ + name;
            let plain = version_reply(config, days, cutoff, name, version, times);
            let reply = version_reply(config, days, cutoff, scoped, version, times);
            &&& plain.status == 307
            &&& plain.headers == seq![
                (
                    "location"@,
                    registry + "/"@ + name + "/-/"@ + name + "-"@ + version + ".tgz"@,
                ),
            ]
            &&& reply.status == 307
            &&& reply.headers == seq![
                (
                    "location"@,
                    registry + "/"@ + scoped + "/-/"@ + name + "-"@ + version + ".tgz"@,
                ),
            ]
        }),
{
    reveal_strlit("/");
    assert("/"@ =~= seq!['/']);
    text::law_after_last(scope, name, '/');
    let registry = config.npm_download_registry@;
    let scoped = scope + "/"@ + name;
    assert(version_reply(config, days, cutoff, name, version, times).headers =~= seq![
        ("location"@, registry + "/"@ + name + "/-/"@ + name + "-"@ + version + ".tgz"@),
    ]);
    assert(version_reply(config, days, cutoff, scoped, version, times).headers =~= seq![
        ("location"@, registry + "/"@ + scoped + "/-/"@ + name + "-"@ + version + ".tgz"@),
    ]);
}

/// The refusal of a version that is too young names the package, the version, the reason
/// and the moment of the release; a version that is not listed is an error.
pub proof fn law_refusal_members(
    config: Config,
    days: i64,
    cutoff: Timestamp,
    package: Seq<char>,
    version: Seq<char>,
    times: Seq<(Seq<char>, Timestamp)>,
)
    ensures
        ({
            let reply = version_reply(config, days, cutoff, package, version, times);
            &&& names::lookup(times, version) is None ==> reply.status == 500
            &&& (names::lookup(times, version) matches Some(t) && !t.le(cutoff)) ==> {
                let published = timestamp::rfc3339_text(
                    names::lookup(times, version)->0.secs,
                    names::lookup(times, version)->0.nanos,
                );
                &&& reply.body matches BodyView::Json(body)
                &&& body.get("package"@) == Some(JsonView::Str(package))
                &&& body.get("requested_version"@) == Some(JsonView::Str(version))
                &&& body.get("reason"@) == Some(JsonView::Str(too_recent(days)))
                &&& body.get("publish_time"@) == Some(JsonView::Str(published))
                &&& reply.headers.contains(("X-Delay-Original-Version"@, version))
            }
        }),
{
    if names::lookup(times, version) matches Some(t) && !t.le(cutoff) {
        let t = names::lookup(times, version)->0;
        let published = timestamp::rfc3339_text(t.secs, t.nanos);
        let suggested = suggestion(times, cutoff, version);
        crate::pypi_handler::law_denial_members(package, version, too_recent(days), suggested);
        reveal_strlit("package");
        reveal_strlit("requested_version");
        reveal_strlit("reason");
        reveal_strlit("publish_time");
        assert("package"@.len() == 7 && "requested_version"@.len() == 17);
        assert("reason"@.len() == 6 && "publish_time"@.len() == 12);
        crate::json::lemma_puts();
        assert(crate::json::is_ordered(denial(package, version, too_recent(days), suggested)));
        let reply = version_reply(config, days, cutoff, package, version, times);
        assert(reply.headers[1] == ("X-Delay-Original-Version"@, version));
    }
}

/// Metadata is taken from upstream only where it was found and could be read; else the
/// status says what went wrong.
pub proof fn law_upstream_metadata(package: Seq<char>, fetched: FetchedView)
    ensures
        metadata_or_reply(package, fetched) == (match fetched {
            FetchedView::Answered { status, body: Ok(v) } if 200 <= status < 300 => Ok::<
                JsonView,
                ReplyView,
            >(v),
            _ => Err(metadata_or_reply(package, fetched)->Err_0),
        }),
        metadata_or_reply(package, fetched) matches Err(reply) ==> reply.status == (match fetched {
            FetchedView::Answered { status, .. } => if 200 <= status < 300 {
                502
            } else {
                status
            },
            FetchedView::Failed(_) => 502u16,
        }),
        info_or_reply(fetched) is Ok <==> metadata_or_reply(package, fetched) is Ok,
        info_or_reply(fetched) matches Ok(info) ==> metadata_or_reply(package, fetched) == Ok::<
            JsonView,
            ReplyView,
        >(info),
        info_or_reply(fetched) matches Err(reply) ==> reply.status == metadata_or_reply(
            package,
            fetched,
        )->Err_0.status,
{
}

/// A version that is old enough is served with its contents, and its tarball is found
/// below the base address, under the whole name of the package and the version.
#[verifier::rlimit(40)]
pub proof fn law_served_tarball(
    metadata: JsonView,
    times: Seq<(Seq<char>, Timestamp)>,
    cutoff: Timestamp,
    base_url: Seq<char>,
    name: Seq<char>,
    versions: JsonView,
    version: Seq<char>,
    entry: JsonView,
    dist: JsonView,
    upstream: Seq<char>,
    key: Seq<char>,
    t: Timestamp,
)
    requires
        crate::json::is_ordered(metadata),
        crate::json::is_ordered(versions),
        crate::json::is_ordered(entry),
        crate::json::is_ordered(dist),
        names::in_order(times),
        delay_check::field_times(time_field(metadata)) == Ok::<_, ErrorView>(times),
        names::lookup(times, version) == Some(t),
        t.le(cutoff),
        metadata.get("name"@) == Some(JsonView::Str(name)),
        metadata.get("versions"@) == Some(versions),
        versions.get(version) == Some(entry),
        entry.get("dist"@) == Some(dist),
        dist.get("tarball"@) == Some(JsonView::Str(upstream)),
    ensures
        ({
            let after = served_metadata(metadata, cutoff, base_url);
            &&& after.get("versions"@) matches Some(new_versions)
            &&& new_versions.get(version) matches Some(new_entry)
            &&& new_entry.get("dist"@) matches Some(new_dist)
            &&& new_dist.get("tarball"@) == Some(
                JsonView::Str(base_url + "/dl/"@ + name + "@"@ + version),
            )
            &&& key != "tarball"@ ==> new_dist.get(key) == dist.get(key)
            &&& key != "dist"@ ==> new_entry.get(key) == entry.get(key)
        }),
{
    reveal_strlit("versions");
    reveal_strlit("dist-tags");
    reveal_strlit("name");
    assert("versions"@.len() == 8 && "dist-tags"@.len() == 9 && "name"@.len() == 4);
    let kept = delay_check::eligible(times, cutoff);
    delay_check::law_eligible(times, cutoff, version);
    assert(kept.contains(version));
    assert(kept.len() > 0);
    let passes = |v: Seq<char>| kept.contains(v);
    let left = names::keep(versions->Object_0, passes);
    names::lemma_keep_order(versions->Object_0, passes);
    names::lemma_keep_lookup(versions->Object_0, passes, version);
    crate::json::lemma_puts();
    let one = npm::keep_versions(metadata, kept);
    assert(one == metadata.put("versions"@, JsonView::Object(left)));
    let two = npm::listing(metadata, kept);
    assert(two.get("versions"@) == Some(JsonView::Object(left)));
    assert(two.get("name"@) == Some(JsonView::Str(name)));
    npm::law_tarball_address(
        two,
        base_url,
        name,
        JsonView::Object(left),
        version,
        entry,
        dist,
        upstream,
        key,
    );
}

/// Metadata is answered as it is served, with a warning exactly if its times can be read
/// and no version is old enough.
pub proof fn law_metadata_answered(metadata: JsonView, cutoff: Timestamp, base_url: Seq<char>)
    ensures
        ({
            let reply = metadata_reply(metadata, cutoff, base_url);
            let warned = delay_check::field_times(time_field(metadata)) matches Ok(times)
                && delay_check::eligible(times, cutoff).len() == 0;
            &&& reply.status == 200
            &&& reply.body == BodyView::Json(served_metadata(metadata, cutoff, base_url))
            &&& reply.headers[0] == ("content-type"@, "application/json"@)
            &&& reply.headers.len() == (if warned {
                2int
            } else {
                1
            })
            &&& warned ==> reply.headers[1] == ("X-Delay-Warning"@, "All versions are recent"@)
        }),
{
}

/// Where no version is old enough, the versions that have a time are dropped and the
/// rest of the metadata is served with the tarballs of this mirror.
pub proof fn law_none_old_enough(
    metadata: JsonView,
    times: Seq<(Seq<char>, Timestamp)>,
    cutoff: Timestamp,
    base_url: Seq<char>,
    version: Seq<char>,
)
    requires
        crate::json::is_ordered(metadata),
        delay_check::field_times(time_field(metadata)) == Ok::<_, ErrorView>(times),
        delay_check::eligible(times, cutoff).len() == 0,
    ensures
        served_metadata(metadata, cutoff, base_url) == npm::rewritten(
            filtered(metadata, cutoff),
            base_url,
        ),
{
}

/// The times of metadata are its time member, or none at all.
pub proof fn law_time_field(metadata: JsonView, field: JsonView)
    ensures
        metadata.get("time"@) == Some(field) ==> time_field(metadata) == field,
        metadata.get("time"@) is None ==> time_field(metadata) == JsonView::object(),
{
}

/// The latest tag is left as it is where its version is old enough or not dated, and else
/// set to the newest version that is old enough; the other tags stay.
pub proof fn law_latest_fixed(
    tags: Seq<(Seq<char>, JsonView)>,
    times: Seq<(Seq<char>, Timestamp)>,
    cutoff: Timestamp,
    latest: Seq<char>,
    tag: Seq<char>,
)
    requires
        names::in_order(tags),
        names::lookup(tags, "latest"@) == Some(JsonView::Str(latest)),
    ensures
        ({
            let fixed = fix_latest(tags, times, cutoff);
            let young = names::lookup(times, latest) matches Some(t) && !t.le(cutoff);
            let best = delay_check::newest(delay_check::eligible(times, cutoff));
            &&& !young || best is None ==> fixed == tags
            &&& young && best is Some ==> names::lookup(fixed, "latest"@) == Some(
                JsonView::Str(best->0),
            )
            &&& tag != "latest"@ ==> names::lookup(fixed, tag) == names::lookup(tags, tag)
        }),
{
    let best = delay_check::newest(delay_check::eligible(times, cutoff));
    if best is Some {
        crate::json::law_put_get(
            JsonView::Object(tags),
            "latest"@,
            JsonView::Str(best->0),
            tag,
        );
    }
}

/// The moment of a module version is the time that its information names.
pub proof fn law_info_time(fetched: FetchedView, info: JsonView, time: Seq<char>, t: Timestamp)
    requires
        info.get("Time"@) == Some(JsonView::Str(time)),
        timestamp::rfc3339_time(time) == Some((t.secs, t.nanos)),
    ensures
        (fetched matches FetchedView::Answered { status, body } && 200 <= status < 300 && body
            == Ok::<JsonView, Seq<char>>(info)) ==> info_time(fetched) == Some(t),
        fetched is Failed ==> info_time(fetched) is None,
        (fetched matches FetchedView::Answered { status, .. } && !(200 <= status < 300))
            ==> info_time(fetched) is None,
{
}

/// The information of a module version that is old enough is answered as it came, and a
/// file of it is not refused; of one that is too young both are refused with the module,
/// the version, the reason and the time.
pub proof fn law_module_checked(
    config: Config,
    module: Seq<char>,
    version: Seq<char>,
    cutoff: Timestamp,
    status: u16,
    info: JsonView,
    time: Seq<char>,
    t: Timestamp,
)
    requires
        200 <= status < 300,
        info.get("Time"@) == Some(JsonView::Str(time)),
        timestamp::rfc3339_time(time) == Some((t.secs, t.nanos)),
    ensures
        ({
            let fetched = FetchedView::Answered { status, body: Ok(info) };
            let days = config.delay_days;
            let named = info_time(fetched);
            let answer = info_reply(module, version, days, cutoff, fetched, named);
            let refusal = file_refusal(module, version, days, cutoff, fetched, named);
            &&& t.le(cutoff) ==> {
                &&& answer.status == 200
                &&& answer.body == BodyView::Json(info)
                &&& refusal is None
            }
            &&& !t.le(cutoff) ==> {
                &&& refusal == Some(answer)
                &&& answer.status == 403
                &&& answer.body matches BodyView::Json(body)
                &&& body.get("module"@) == Some(JsonView::Str(module))
                &&& body.get("requested_version"@) == Some(JsonView::Str(version))
                &&& body.get("reason"@) == Some(JsonView::Str(too_recent(days)))
                &&& body.get("publish_time"@) == Some(JsonView::Str(time))
            }
        }),
{
    reveal_strlit("error");
    reveal_strlit("module");
    reveal_strlit("requested_version");
    reveal_strlit("reason");
    reveal_strlit("publish_time");
    reveal_strlit("suggestion");
    assert("error"@.len() == 5 && "module"@.len() == 6 && "requested_version"@.len() == 17);
    assert("reason"@.len() == 6 && "publish_time"@.len() == 12 && "suggestion"@.len() == 10);
    assert("module"@[0] == 'm' && "reason"@[0] == 'r');
    crate::json::lemma_puts();
}

/// A module version whose information names no time that can be read is answered, but its
/// files are not served.
pub proof fn law_module_undated(
    module: Seq<char>,
    version: Seq<char>,
    days: i64,
    cutoff: Timestamp,
    status: u16,
    info: JsonView,
)
    requires
        200 <= status < 300,
        match info.get("Time"@) {
            Some(JsonView::Str(time)) => timestamp::rfc3339_time(time) is None,
            _ => true,
        },
    ensures
        ({
            let fetched = FetchedView::Answered { status, body: Ok(info) };
            let named = info_time(fetched);
            let answer = info_reply(module, version, days, cutoff, fetched, named);
            &&& named is None
            &&& answer.status == 200
            &&& answer.body == BodyView::Json(info)
            &&& file_refusal(module, version, days, cutoff, fetched, named) matches Some(refusal)
            &&& refusal.status == 502
        }),
{
}

/// A path of the Python index names a package or a file, whatever the number of its
/// pieces, or the index itself.
#[verifier::rlimit(40)]
pub proof fn law_pypi_paths(pieces: Seq<Seq<char>>)
    requires
        pieces.len() > 0,
        forall|i: int|
            0 <= i < pieces.len() ==> !(#[trigger] pieces[i]).contains('/') && pieces[i].len() > 0,
    ensures
        ({
            let rest = text::join(pieces, "/"@);
            &&& pypi_request("/simple/"@ + rest) == PypiRequestView::Package { package: rest }
            &&& pypi_request("/packages/"@ + rest) == PypiRequestView::Download { path: rest }
            &&& pypi_request("/simple"@) == PypiRequestView::Index
            &&& pieces[0] != "simple"@ && pieces[0] != "packages"@ ==> (pypi_request(
                "/"@ + rest,
            ) matches PypiRequestView::Answer(reply) && reply.status == 400)
        }),
{
    reveal_strlit("/");
    reveal_strlit("simple");
    reveal_strlit("packages");
    reveal_strlit("/simple");
    reveal_strlit("/simple/");
    reveal_strlit("/packages/");
    let sep = seq!['/'];
    assert("/"@ =~= sep);
    assert("simple"@.len() == 6 && "packages"@.len() == 8);
    let rest = text::join(pieces, sep);
    lemma_headed("simple"@, pieces);
    lemma_headed("packages"@, pieces);
    assert("/simple/"@ + rest =~= sep + ("simple"@ + sep + rest));
    assert("/packages/"@ + rest =~= sep + ("packages"@ + sep + rest));
    text::law_segments(seq!["simple"@]);
    assert(text::join(seq!["simple"@], sep) == "simple"@);
    assert("/simple"@ =~= sep + "simple"@);
    text::law_segments(pieces);
}

proof fn lemma_headed(head: Seq<char>, pieces: Seq<Seq<char>>)
    requires
        head.len() > 0,
        !head.contains('/'),
        pieces.len() > 0,
        forall|i: int|
            0 <= i < pieces.len() ==> !(#[trigger] pieces[i]).contains('/') && pieces[i].len() > 0,
    ensures
        ({
            let parts = text::segments(
                seq!['/'] + (head + seq!['/'] + text::join(pieces, seq!['/'])),
            );
            &&& parts == seq![head] + pieces
            &&& parts.subrange(1, parts.len() as int) == pieces
        }),
{
    let sep = seq!['/'];
    let parts = seq![head] + pieces;
    text::lemma_join_add(seq![head], pieces, sep);
    assert(text::join(seq![head], sep) == head);
    assert forall|i: int| 0 <= i < parts.len() implies !(#[trigger] parts[i]).contains('/')
        && parts[i].len() > 0 by {
        if i > 0 {
            assert(parts[i] == pieces[i - 1]);
        }
    }
    text::law_segments(parts);
    assert(parts.subrange(1, parts.len() as int) =~= pieces);
}

/// A tarball whose name has no at sign is read as the pattern matched it.
pub proof fn law_tarball_matched(
    id: Seq<char>,
    groups: Seq<Option<Seq<char>>>,
    package: Seq<char>,
    version: Seq<char>,
)
    requires
        !id.contains('@'),
        groups.len() >= 3,
        groups[1] == Some(package),
        groups[2] == Some(version),
    ensures
        tarball_parts(id, Some(groups)) == Some((package, version)),
        tarball_parts(id, None) is None,
{
    npm::law_id_refused(id);
}

/// A tarball path is read back to the package and the version with the ending and
/// leading slashes left out.
pub proof fn law_tarball_id(id: Seq<char>)
    requires
        id.len() > 0,
        id[0] != '/',
        !".tgz"@.is_suffix_of(id),
    ensures
        tarball_id(id) == id,
        tarball_id("/"@ + id) == id,
        tarball_id(id + ".tgz"@) == id,
        tarball_id("/"@ + id + ".tgz"@) == id,
{
    reveal_strlit("/");
    reveal_strlit(".tgz");
    text::law_trim_ending(id, ".tgz"@);
    let ended = id + ".tgz"@;
    assert(ended[0] == id[0]);
    assert(text::trim_start(id, '/') == id);
    assert(text::trim_start(ended, '/') == ended);
    let a = "/"@ + id;
    let b = "/"@ + id + ".tgz"@;
    assert(a.skip(1) =~= id);
    assert(b.skip(1) =~= ended);
    assert(a[0] == '/' && b[0] == '/');
    assert(text::trim_start(a, '/') == id);
    assert(text::trim_start(b, '/') == ended);
}

/// What is said where upstream failed names the package, or the error.
pub proof fn law_upstream_messages(
    package: Seq<char>,
    status: u16,
    body: Result<JsonView, Seq<char>>,
    error: Seq<char>,
)
    ensures
        metadata_or_reply(package, FetchedView::Failed(error)) == Err::<JsonView, ReplyView>(
            ReplyView::error(502, "Upstream fetch failed: "@ + error),
        ),
        info_or_reply(FetchedView::Failed(error)) == Err::<JsonView, ReplyView>(
            ReplyView::error(502, "Upstream fetch failed: "@ + error),
        ),
        !(200 <= status < 300) ==> metadata_or_reply(
            package,
            FetchedView::Answered { status, body },
        ) == Err::<JsonView, ReplyView>(
            ReplyView::error(status, "Upstream error for package: "@ + package),
        ),
        200 <= status < 300 ==> metadata_or_reply(
            package,
            FetchedView::Answered { status, body: Err(error) },
        ) == Err::<JsonView, ReplyView>(
            ReplyView::error(502, "Failed to parse upstream response: "@ + error),
        ),
{
}

/// What is written down of a module version names its kind, and why it was blocked; of
/// one without a time nothing is written down.
pub proof fn law_module_lines(
    days: i64,
    cutoff: Timestamp,
    module: Seq<char>,
    version: Seq<char>,
    t: Timestamp,
    client_ip: Option<Seq<char>>,
)
    ensures
        module_lines(days, cutoff, module, version, None, client_ip).len() == 0,
        ({
            let lines = module_lines(days, cutoff, module, version, Some(t), client_ip);
            &&& lines[0].package_type == PackageType::GoMod
            &&& lines[0].actual_version is None
            &&& !t.le(cutoff) ==> lines[0].reason == too_recent(days)
        }),
{
}

/// A tarball path without an at sign is read by the pattern, from its last piece.
pub proof fn law_tarball_by_pattern(directory: Seq<char>, file: Seq<char>)
    requires
        !directory.contains('@'),
        !file.contains('@'),
        !file.contains('/'),
    ensures
        ({
            let found = pattern::first_match(
                r"^(.+)-(\d+\.\d+\.\d+(?:-.+)?)\.tgz$"@,
                file,
            );
            asked_tarball(directory + seq!['/'] + file) == (match found {
                Some(groups) => match (pattern::group(groups, 1), pattern::group(groups, 2)) {
                    (Some(package), Some(version)) => Some((package, version)),
                    _ => None,
                },
                None => None,
            })
        }),
{
    reveal_strlit(".tgz");
    let path = directory + seq!['/'] + file;
    text::law_after_last(directory, file, '/');
    assert forall|i: int| 0 <= i < path.len() implies path[i] != '@' by {
        if i < directory.len() {
            assert(directory.contains(directory[i]));
        } else if i > directory.len() {
            assert(file.contains(file[i - directory.len() - 1]));
        }
    }
    text::law_trim_start(path, '/');
    let start = text::trim_start(path, '/');
    lemma_trimmed_part(start, ".tgz"@);
    let id = tarball_id(path);
    assert forall|i: int| 0 <= i < id.len() implies id[i] != '@' by {
        assert(id[i] == start[i]);
        assert(start[i] == path[path.len() - start.len() + i]);
    }
    npm::law_id_refused(id);
}

proof fn lemma_trimmed_part(s: Seq<char>, ending: Seq<char>)
    requires
        ending.len() > 0,
    ensures
        ({
            let r = text::trim_end_text(s, ending);
            r.len() <= s.len() && forall|i: int| 0 <= i < r.len() ==> r[i] == s[i]
        }),
    decreases s.len(),
{
    if ending.is_suffix_of(s) {
        lemma_trimmed_part(s.take(s.len() - ending.len()), ending);
    }
}

/// The refusal of a version is in JSON, and gives its reason last.
pub proof fn law_withheld_headers(
    package: Seq<char>,
    version: Seq<char>,
    days: i64,
    published: Seq<char>,
    suggested: Seq<char>,
)
    ensures
        withheld(package, version, days, published, None).headers == seq![
            ("content-type"@, "application/json"@),
            ("X-Delay-Original-Version"@, version),
            ("X-Delay-Reason"@, "Version too recent"@),
        ],
        withheld(package, version, days, published, Some(suggested)).headers == seq![
            ("content-type"@, "application/json"@),
            ("X-Delay-Original-Version"@, version),
            ("X-Delay-Suggested-Version"@, suggested),
            ("X-Delay-Reason"@, "Version too recent"@),
        ],
{
    assert(withheld(package, version, days, published, None).headers =~= seq![
        ("content-type"@, "application/json"@),
        ("X-Delay-Original-Version"@, version),
        ("X-Delay-Reason"@, "Version too recent"@),
    ]);
    assert(withheld(package, version, days, published, Some(suggested)).headers =~= seq![
        ("content-type"@, "application/json"@),
        ("X-Delay-Original-Version"@, version),
        ("X-Delay-Suggested-Version"@, suggested),
        ("X-Delay-Reason"@, "Version too recent"@),
    ]);
}

/// What is answered to a question about a module version is in JSON.
pub proof fn law_info_headers(
    module: Seq<char>,
    version: Seq<char>,
    days: i64,
    cutoff: Timestamp,
    fetched: FetchedView,
    named: Option<Timestamp>,
)
    ensures
        info_reply(module, version, days, cutoff, fetched, named).headers == seq![
            ("content-type"@, "application/json"@),
        ],
{
    assert(info_reply(module, version, days, cutoff, fetched, named).headers =~= seq![
        ("content-type"@, "application/json"@),
    ]);
}

/// The index lists the endpoints of each group with their paths.
#[verifier::rlimit(60)]
pub proof fn law_listed_endpoints()
    ensures
        endpoints().get("health"@) == Some(
            described("/health"@, "Health check and configuration status"@),
        ),
        endpoints().get("npm"@) matches Some(listed) && listed.get("metadata"@) == Some(
            endpoint("/npm/{package}"@),
        ) && listed.get("download"@) == Some(endpoint("/dl/{package}@{version}.tgz"@)),
        endpoints().get("gomod"@) matches Some(listed) && listed.get("version_list"@) == Some(
            endpoint("/gomod/{module}/@v/list"@),
        ),
        endpoints().get("pypi"@) matches Some(listed) && listed.get("simple_index"@) == Some(
            endpoint("/pypi/simple/"@),
        ),
{
    reveal_strlit("health");
    reveal_strlit("npm");
    reveal_strlit("gomod");
    reveal_strlit("pypi");
    reveal_strlit("metadata");
    reveal_strlit("download");
    assert("health"@.len() == 6 && "npm"@.len() == 3 && "gomod"@.len() == 5 && "pypi"@.len() == 4);
    assert("metadata"@[0] == 'm' && "download"@[0] == 'd');
    crate::json::lemma_puts();
}

} // verus!
