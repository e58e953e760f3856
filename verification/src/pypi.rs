//! PyPI packages as the edge worker serves them: package lists with young
//! versions marked or hidden, and downloads checked against their checksums.

use vstd::prelude::*;
use vstd::string::{StrSliceExecFns, StringExecFns};

use crate::config::Config;
use crate::delay_check::{
    self, CheckView, DelayCheckError, DelayChecker, ErrorView, VersionCheckResult, VersionTimeInfo,
};
use crate::delay_logger::{self, DelayLogEntry};
use crate::digest;
use crate::fetch::{self, MetadataFetch};
use crate::json::{self, Json, JsonView};
use crate::names::{self, NameMap};
use crate::pattern;
use crate::pypi_handler::{
    collapse, denial, denial_json, download_url, file_lines, file_parts, file_sha256,
    find_download_url_for_version, find_sha256_for_file, first_upload_time, json_url, log_file,
    normalize_package_name, normalized_json_url, or_else, parse_package_filename,
    parse_upload_time, redirect_filename, redirected_filename, release_times, string_or_else,
    suggested_version, suggestion, too_recent, too_recent_text, upload_text, upload_time,
};
use crate::reply::{Body, Reply, ReplyView};
use crate::text;
use crate::timestamp::{self, Timestamp};

verus! {

/// The name of a request made at a given moment: the time since the start of 1970,
/// none where the moment is earlier.
pub open spec fn request_name(now: Timestamp) -> Seq<char> {
    if now.secs < 0 {
        text::numeral(0, 16) + text::numeral(0, 16)
    } else {
        text::numeral(now.secs as nat, 16) + text::numeral(now.nanos as nat, 16)
    }
}

/// A name for a request made at a given moment.
pub fn request_id(now: &Timestamp) -> (r: String)
    ensures
        r@ == request_name(*now),
{
    if now.secs < 0 {
        return text::numeral_text(0, 16).concat(text::numeral_text(0, 16).as_str());
    }
    let secs = text::numeral_text(now.secs as u64, 16);
    let nanos = text::numeral_text(now.nanos as u64, 16);
    secs.concat(nanos.as_str())
}

/// A name for a request made now.
pub fn generate_request_id() -> (r: String)
    ensures
        exists|now: Timestamp|
            now.is_date() && now.nanos < 1_000_000_000 && r@ == #[trigger] request_name(now),
{
    let now = timestamp::utc_now();
    request_id(&now)
}

/// The status and message for an error of the upstream server.
pub open spec fn mapped(status: u16, context: Seq<char>) -> (u16, Seq<char>) {
    if status == 400 {
        (400, "Bad request to upstream: "@ + context)
    } else if status == 401 || status == 403 {
        (502, "Upstream authentication failed"@)
    } else if status == 404 {
        (404, "Resource not found on upstream: "@ + context)
    } else if status == 429 {
        (429, "Upstream rate limited, please retry later"@)
    } else if status == 500 {
        (502, "Upstream internal error"@)
    } else if status == 502 {
        (502, "Upstream bad gateway"@)
    } else if status == 503 {
        (503, "Upstream service unavailable"@)
    } else if status == 504 {
        (504, "Upstream gateway timeout"@)
    } else {
        (502, "Unexpected upstream error: "@ + text::decimal(status as int))
    }
}

/// The answer for an error of the upstream server.
pub open spec fn upstream_reply(
    status: u16,
    context: Seq<char>,
    request_id: Seq<char>,
    timestamp: Seq<char>,
) -> ReplyView {
    let (http_status, message) = mapped(status, context);
    let plain = ReplyView::json(
        http_status,
        JsonView::object().put("error"@, JsonView::Str(message)).put(
            "status"@,
            JsonView::Number(text::decimal(http_status as int)),
        ).put("upstream_status"@, JsonView::Number(text::decimal(status as int))).put(
            "context"@,
            JsonView::Str(context),
        ).put("request_id"@, JsonView::Str(request_id)).put(
            "timestamp"@,
            JsonView::Str(timestamp),
        ),
    ).header("Content-Type"@, "application/json"@);
    if status == 429 {
        plain.header("Retry-After"@, "60"@)
    } else {
        plain
    }
}

fn map_status(status: u16, context: &str) -> (r: (u16, String))
    ensures
        (r.0, r.1@) == mapped(status, context@),
{
    if status == 400 {
        (400, "Bad request to upstream: ".to_owned().concat(context))
    } else if status == 401 || status == 403 {
        (502, "Upstream authentication failed".to_owned())
    } else if status == 404 {
        (404, "Resource not found on upstream: ".to_owned().concat(context))
    } else if status == 429 {
        (429, "Upstream rate limited, please retry later".to_owned())
    } else if status == 500 {
        (502, "Upstream internal error".to_owned())
    } else if status == 502 {
        (502, "Upstream bad gateway".to_owned())
    } else if status == 503 {
        (503, "Upstream service unavailable".to_owned())
    } else if status == 504 {
        (504, "Upstream gateway timeout".to_owned())
    } else {
        (
            502,
            "Unexpected upstream error: ".to_owned().concat(
                text::decimal_text(status as i64).as_str(),
            ),
        )
    }
}

/// The answer for an error of the upstream server, under a given name and time.
pub fn upstream_error_reply(status: u16, context: &str, request_id: &str, timestamp: &str) -> (r:
    Reply)
    ensures
        r@ == upstream_reply(status, context@, request_id@, timestamp@),
{
    let (http_status, message) = map_status(status, context);
    let body = Json::object().put("error", Json::Str(message)).put(
        "status",
        Json::integer(http_status as i64),
    ).put("upstream_status", Json::integer(status as i64)).put(
        "context",
        Json::string(context),
    ).put("request_id", Json::string(request_id)).put("timestamp", Json::string(timestamp));
    let plain = Reply::json(http_status, body).header("Content-Type", "application/json");
    if status == 429 {
        plain.header("Retry-After", "60")
    } else {
        plain
    }
}

/// Whether an answer is the one for an error of the upstream server, named for one
/// moment and dated at another.
pub open spec fn is_upstream_reply(reply: ReplyView, status: u16, context: Seq<char>) -> bool {
    exists|named: Timestamp, dated: Timestamp|
        named.is_date() && named.nanos < 1_000_000_000 && dated.is_date() && reply
            == upstream_reply(
            status,
            context,
            #[trigger] request_name(named),
            #[trigger] timestamp::rfc3339_text(dated.secs, dated.nanos),
        )
}

/// The answer for an error of the upstream server.
pub fn map_upstream_error(status: u16, context: &str) -> (r: Reply)
    ensures
        is_upstream_reply(r@, status, context@),
{
    let id = generate_request_id();
    let now = timestamp::utc_now();
    let time = timestamp::rfc3339(&now);
    upstream_error_reply(status, context, id.as_str(), time.as_str())
}

/// The metadata that was fetched in the course of a request.
pub struct RequestContext {
    pub pypi_metadata_cache: NameMap<Json>,
}

impl RequestContext {
    /// A context in which nothing was fetched.
    pub fn new() -> (r: Self)
        ensures
            r.pypi_metadata_cache@.len() == 0,
    {
        RequestContext { pypi_metadata_cache: NameMap::new() }
    }

    /// The metadata of a package that was fetched, by its normalised name.
    pub fn cached(&self, normalized: &str) -> (r: Option<&Json>)
        ensures
            match r {
                Some(v) => names::lookup(self.pypi_metadata_cache@, normalized@) == Some(v@),
                None => names::lookup(self.pypi_metadata_cache@, normalized@) is None,
            },
    {
        self.pypi_metadata_cache.get(normalized)
    }

    /// The metadata of a package, by its normalised name: what was fetched
    /// before, else what is fetched now, which is kept.
    pub fn get_or_keep(&mut self, normalized: &str, fetched: Result<Json, Reply>) -> (r: Result<
        Json,
        Reply,
    >)
        ensures
            match names::lookup(old(self).pypi_metadata_cache@, normalized@) {
                Some(v) => r matches Ok(got) && got@ == v && final(self).pypi_metadata_cache@ == old(self).pypi_metadata_cache@,
                None => match fetched {
                    Ok(v) => r matches Ok(got) && got@ == v@ && final(self).pypi_metadata_cache@
                        == names::put(old(self).pypi_metadata_cache@, normalized@, v@),
                    Err(reply) => r matches Err(got) && got@ == reply@ && final(self).pypi_metadata_cache@ == old(self).pypi_metadata_cache@,
                },
            },
    {
        if let Some(v) = self.pypi_metadata_cache.get(normalized) {
            return Ok(v.clone());
        }
        match fetched {
            Ok(v) => {
                self.pypi_metadata_cache.insert(normalized, v.clone());
                Ok(v)
            },
            Err(reply) => Err(reply),
        }
    }

    /// The metadata of a package: what was fetched before, else what is fetched
    /// now, which is kept.
    pub fn get_or_fetch_metadata(&mut self, package: &str, fetched: Result<Json, Reply>) -> (r:
        Result<Json, Reply>)
        ensures
            match names::lookup(
                old(self).pypi_metadata_cache@,
                text::lowercase(collapse(package@)),
            ) {
                Some(v) => r matches Ok(got) && got@ == v && final(self).pypi_metadata_cache@ == old(self).pypi_metadata_cache@,
                None => match fetched {
                    Ok(v) => r matches Ok(got) && got@ == v@ && final(self).pypi_metadata_cache@
                        == names::put(
                        old(self).pypi_metadata_cache@,
                        text::lowercase(collapse(package@)),
                        v@,
                    ),
                    Err(reply) => r matches Err(got) && got@ == reply@ && final(self).pypi_metadata_cache@ == old(self).pypi_metadata_cache@,
                },
            },
    {
        let normalized = normalize_package_name(package);
        self.get_or_keep(normalized.as_str(), fetched)
    }

    /// Keeps metadata that came with a package list, unless there is some or it
    /// is null, and gives what is kept, or null.
    pub fn note(&mut self, normalized: &str, prefetched: Json) -> (r: Json)
        ensures
            match names::lookup(old(self).pypi_metadata_cache@, normalized@) {
                Some(v) => r@ == v && final(self).pypi_metadata_cache@ == old(self).pypi_metadata_cache@,
                None => r@ == prefetched@ && final(self).pypi_metadata_cache@ == (if prefetched@
                    == JsonView::Null {
                    old(self).pypi_metadata_cache@
                } else {
                    names::put(old(self).pypi_metadata_cache@, normalized@, prefetched@)
                }),
            },
    {
        if let Some(v) = self.pypi_metadata_cache.get(normalized) {
            return v.clone();
        }
        if let Json::Null = prefetched {
            return Json::Null;
        }
        self.pypi_metadata_cache.insert(normalized, prefetched.clone());
        prefetched
    }
}

/// What was fetched for a package is given again for the same package, and
/// nothing else that was fetched is lost.
pub proof fn law_metadata_kept(
    cache: Seq<(Seq<char>, JsonView)>,
    normalized: Seq<char>,
    metadata: JsonView,
    other: Seq<char>,
)
    requires
        names::in_order(cache),
    ensures
        names::lookup(names::put(cache, normalized, metadata), normalized) == Some(metadata),
        other != normalized ==> names::lookup(names::put(cache, normalized, metadata), other)
            == names::lookup(cache, other),
{
    names::lemma_put_lookup(cache, normalized, metadata, other);
}

/// The context that an error for a package is reported with.
pub open spec fn package_context(package: Seq<char>) -> Seq<char> {
    "package="@ + package
}

/// Whether a reply is the answer where the metadata of a package could not be
/// had.
pub open spec fn is_release_error(package: Seq<char>, fetched: MetadataFetch, reply: ReplyView) -> bool {
    match fetched {
        MetadataFetch::NotSent(e) => reply == ReplyView::text(
            502,
            "Failed to create PyPI request: "@ + e@,
        ),
        MetadataFetch::NotAnswered(e) => reply == ReplyView::text(
            502,
            "Failed to connect to PyPI JSON API: "@ + e@,
        ),
        _ => if !fetch::success(fetched.status()->0) {
            is_upstream_reply(reply, fetched.status()->0, package_context(package))
        } else {
            match fetched {
                MetadataFetch::Unreadable { error, .. } => reply == ReplyView::text(
                    500,
                    "Failed to read PyPI JSON API response: "@ + error@,
                ),
                MetadataFetch::Malformed { error, .. } => reply == ReplyView::text(
                    500,
                    "Failed to parse PyPI JSON API response: "@ + error@,
                ),
                _ => false,
            }
        },
    }
}

/// The metadata of a package from what came of asking for it, or the answer
/// where it could not be had.
pub fn fetch_pypi_release_info(package: &str, fetched: MetadataFetch) -> (r: Result<Json, Reply>)
    ensures
        match r {
            Ok(v) => fetched matches MetadataFetch::Parsed { status, metadata } && fetch::success(
                status,
            ) && v@ == metadata@,
            Err(reply) => is_release_error(package@, fetched, reply@),
        },
{
    let context = "package=".to_owned().concat(package);
    match fetched {
        MetadataFetch::NotSent(e) => Err(
            Reply::text(502, "Failed to create PyPI request: ".to_owned().concat(e.as_str())),
        ),
        MetadataFetch::NotAnswered(e) => Err(
            Reply::text(502, "Failed to connect to PyPI JSON API: ".to_owned().concat(e.as_str())),
        ),
        MetadataFetch::Unreadable { status, error } => if !fetch::is_success(status) {
            Err(map_upstream_error(status, context.as_str()))
        } else {
            Err(
                Reply::text(
                    500,
                    "Failed to read PyPI JSON API response: ".to_owned().concat(error.as_str()),
                ),
            )
        },
        MetadataFetch::Malformed { status, error } => if !fetch::is_success(status) {
            Err(map_upstream_error(status, context.as_str()))
        } else {
            Err(
                Reply::text(
                    500,
                    "Failed to parse PyPI JSON API response: ".to_owned().concat(error.as_str()),
                ),
            )
        },
        MetadataFetch::Parsed { status, metadata } => if !fetch::is_success(status) {
            Err(map_upstream_error(status, context.as_str()))
        } else {
            Ok(metadata)
        },
    }
}


/// What came of asking for the page that lists the files of a package.
#[derive(Debug)]
pub enum PageFetch {
    NotSent(String),
    NotAnswered(String),
    Unreadable { status: u16, error: String },
    Read { status: u16, body: String },
}

/// What came of asking for the metadata that goes with a page; `value` is `None`
/// where it could not be read or is not JSON.
#[derive(Debug)]
pub enum ExtraFetch {
    NotSent(String),
    NotAnswered(String),
    Answered { status: u16, value: Option<Json> },
}

/// The context that an error for a package list is reported with.
pub open spec fn list_context(package: Seq<char>) -> Seq<char> {
    "package list (parallel), package="@ + package
}

/// Whether a reply is the answer where a package list could not be had.
pub open spec fn is_list_error(
    package: Seq<char>,
    page: PageFetch,
    extra: ExtraFetch,
    reply: ReplyView,
) -> bool {
    match (page, extra) {
        (PageFetch::NotSent(e), _) => reply == ReplyView::text(
            502,
            "Failed to create PyPI simple request: "@ + e@,
        ),
        (_, ExtraFetch::NotSent(e)) => reply == ReplyView::text(
            502,
            "Failed to create PyPI JSON request: "@ + e@,
        ),
        (PageFetch::NotAnswered(e), _) => reply == ReplyView::text(
            502,
            "Simple API fetch failed: "@ + e@,
        ),
        (_, ExtraFetch::NotAnswered(e)) => reply == ReplyView::text(
            502,
            "JSON API fetch failed: "@ + e@,
        ),
        (PageFetch::Unreadable { status, error }, _) => if fetch::success(status) {
            reply == ReplyView::text(500, "Failed to read simple API response: "@ + error@)
        } else {
            is_upstream_reply(reply, status, list_context(package))
        },
        (PageFetch::Read { status, .. }, _) => !fetch::success(status) && is_upstream_reply(
            reply,
            status,
            list_context(package),
        ),
    }
}

/// The metadata that goes with a page, or null.
pub open spec fn extra_value(extra: ExtraFetch) -> JsonView {
    match extra {
        ExtraFetch::Answered { status, value: Some(v) } => if fetch::success(status) {
            v@
        } else {
            JsonView::Null
        },
        _ => JsonView::Null,
    }
}

/// Where the list of the files of a package is found, and its metadata, given
/// its normalised name.
pub fn list_urls(normalized: &str, config: &Config) -> (r: (String, String))
    ensures
        r.0@ == text::trim_end(config.pypi_registry@, '/') + "/"@ + normalized@ + "/"@,
        r.1@ == json_url(config.pypi_json_api_base@, normalized@),
{
    let simple = text::trim_end_char(config.pypi_registry.as_str(), '/').to_owned().concat(
        "/",
    ).concat(normalized).concat("/");
    (simple, normalized_json_url(config.pypi_json_api_base.as_str(), normalized))
}

/// The page that lists the files of a package and the metadata that goes with
/// it, from what came of asking for them, or the answer where they could not be
/// had.
pub fn fetch_metadata_parallel(package: &str, page: PageFetch, extra: ExtraFetch) -> (r: Result<
    (String, Json),
    Reply,
>)
    ensures
        match r {
            Ok((body, value)) => {
                &&& page matches PageFetch::Read { status, body: b } && fetch::success(status)
                    && body@ == b@
                &&& extra is Answered
                &&& value@ == extra_value(extra)
            },
            Err(reply) => is_list_error(package@, page, extra, reply@),
        },
{
    let context = "package list (parallel), package=".to_owned().concat(package);
    if let PageFetch::NotSent(e) = &page {
        let m = "Failed to create PyPI simple request: ".to_owned().concat(e.as_str());
        return Err(Reply::text(502, m));
    }
    if let ExtraFetch::NotSent(e) = &extra {
        let m = "Failed to create PyPI JSON request: ".to_owned().concat(e.as_str());
        return Err(Reply::text(502, m));
    }
    if let PageFetch::NotAnswered(e) = &page {
        let m = "Simple API fetch failed: ".to_owned().concat(e.as_str());
        return Err(Reply::text(502, m));
    }
    let value = match extra {
        ExtraFetch::NotAnswered(e) => {
            let m = "JSON API fetch failed: ".to_owned().concat(e.as_str());
            return Err(Reply::text(502, m));
        },
        ExtraFetch::Answered { status, value } => match value {
            Some(v) => if fetch::is_success(status) {
                v
            } else {
                Json::Null
            },
            None => Json::Null,
        },
        ExtraFetch::NotSent(_) => Json::Null,
    };
    match page {
        PageFetch::Unreadable { status, error } => if fetch::is_success(status) {
            let m = "Failed to read simple API response: ".to_owned().concat(error.as_str());
            Err(Reply::text(500, m))
        } else {
            Err(map_upstream_error(status, context.as_str()))
        },
        PageFetch::Read { status, body } => if fetch::is_success(status) {
            Ok((body, value))
        } else {
            Err(map_upstream_error(status, context.as_str()))
        },
        PageFetch::NotSent(e) => Err(Reply::text(502, e)),
        PageFetch::NotAnswered(e) => Err(Reply::text(502, e)),
    }
}

/// The answer for a download of which the digest is given: the bytes where it is
/// the expected one, else a message.
pub fn check_digest(digest: &Vec<u8>, expected_hash: &str, body: Vec<u8>) -> (r: Result<
    Reply,
    String,
>)
    ensures
        match r {
            Ok(reply) => digest::hex(digest@) == expected_hash@ && reply@ == ReplyView::new(
                200,
                crate::reply::BodyView::Bytes(body@),
            ).header("X-Integrity-Verified"@, "sha256"@),
            Err(m) => digest::hex(digest@) != expected_hash@ && m@ == "SHA256 mismatch: expected="@
                + expected_hash@ + ", computed="@ + digest::hex(digest@),
        },
{
    let computed = digest::hex_text(digest);
    if !text::same(computed.as_str(), expected_hash) {
        return Err(
            "SHA256 mismatch: expected=".to_owned().concat(expected_hash).concat(
                ", computed=",
            ).concat(computed.as_str()),
        );
    }
    Ok(Reply::new(200, Body::Bytes(body)).header("X-Integrity-Verified", "sha256"))
}

/// The answer for a download that upstream sent, checked against the expected
/// checksum, or a message.
pub fn download_with_hash_verification(status: u16, body: Vec<u8>, expected_hash: &str) -> (r:
    Result<Reply, String>)
    ensures
        match r {
            Ok(reply) => {
                &&& status == 200
                &&& digest::hex(digest::sha256(body@)) == expected_hash@
                &&& reply@ == ReplyView::new(200, crate::reply::BodyView::Bytes(body@)).header(
                    "X-Integrity-Verified"@,
                    "sha256"@,
                )
            },
            Err(m) => if status != 200 {
                m@ == "Download failed: status "@ + text::decimal(status as int)
            } else {
                &&& digest::hex(digest::sha256(body@)) != expected_hash@
                &&& m@ == "SHA256 mismatch: expected="@ + expected_hash@ + ", computed="@
                    + digest::hex(digest::sha256(body@))
            },
        },
{
    if status != 200 {
        return Err(
            "Download failed: status ".to_owned().concat(
                text::decimal_text(status as i64).as_str(),
            ),
        );
    }
    let digest = digest::sha256_digest(&body);
    check_digest(&digest, expected_hash, body)
}

/// The address that a link leads to.
pub open spec fn link_url(href: Seq<char>, base_url: Seq<char>) -> Seq<char> {
    let target = text::before_first(href, '#');
    if "http"@.is_prefix_of(target) {
        target
    } else {
        base_url + "/"@ + text::trim_start(target, '/')
    }
}

/// The checksums of a list of assignments, by their kind.
pub open spec fn hashes_of(parts: Seq<Seq<char>>) -> Seq<(Seq<char>, JsonView)>
    decreases parts.len(),
{
    if parts.len() == 0 {
        Seq::empty()
    } else {
        let front = hashes_of(parts.drop_last());
        match text::cut(parts.last(), '=') {
            Some((algo, hash)) => names::put(front, algo, JsonView::Str(hash)),
            None => front,
        }
    }
}

/// The checksums that a link gives.
pub open spec fn link_hashes(href: Seq<char>) -> JsonView {
    match text::cut(href, '#') {
        Some((_, fragment)) => JsonView::Object(hashes_of(text::split(fragment, '&'))),
        None => JsonView::object(),
    }
}

fn hashes_in(fragment: &str) -> (r: Json)
    ensures
        r@ == JsonView::Object(hashes_of(text::split(fragment@, '&'))),
{
    let parts = text::split_text(fragment, '&');
    let ghost all = text::views(parts@);
    let mut hashes = Json::object();
    let mut i: usize = 0;
    proof {
        assert(all.take(0) =~= Seq::empty());
    }
    while i < parts.len()
        invariant
            i <= parts@.len(),
            all == text::views(parts@),
            hashes@ == JsonView::Object(hashes_of(all.take(i as int))),
        decreases parts@.len() - i,
    {
        proof {
            assert(all.take(i + 1).drop_last() =~= all.take(i as int));
            assert(all.take(i + 1).last() == all[i as int]);
        }
        if let Some((algo, hash)) = text::split_once(parts[i].as_str(), '=') {
            hashes = hashes.put(algo, Json::string(hash));
        }
        i += 1;
    }
    proof {
        assert(all.take(all.len() as int) =~= all);
    }
    hashes
}

/// The address and checksums that a link gives.
pub fn extract_url_and_hashes_for_json(href: &str, base_url: &str) -> (r: (String, Json))
    ensures
        r.0@ == link_url(href@, base_url@),
        r.1@ == link_hashes(href@),
{
    let target = text::first_piece(href, '#');
    let url = if text::starts_with(target, "http") {
        target.to_owned()
    } else {
        base_url.to_owned().concat("/").concat(text::trim_start_char(target, '/'))
    };
    let hashes = match text::split_once(href, '#') {
        Some((_, fragment)) => hashes_in(fragment),
        None => Json::object(),
    };
    (url, hashes)
}

/// What stands from the first occurrence of a text in another on, behind that
/// occurrence.
pub open spec fn behind(s: Seq<char>, t: Seq<char>) -> Option<Seq<char>>
    decreases s.len(),
{
    if t.is_prefix_of(s) {
        Some(s.skip(t.len() as int))
    } else if s.len() == 0 {
        None
    } else {
        behind(s.skip(1), t)
    }
}

/// The value of an attribute: what stands in the quotes behind its name and an
/// equals sign.
pub open spec fn attr_value(attrs: Seq<char>, attr_name: Seq<char>) -> Option<Seq<char>> {
    match behind(attrs, attr_name + "=\""@) {
        Some(rest) => match text::cut(rest, '"') {
            Some((value, _)) => Some(value),
            None => None,
        },
        None => None,
    }
}

/// The value of an attribute.
pub fn extract_attr_value(attrs: &str, attr_name: &str) -> (r: Option<String>)
    ensures
        text::opt_view(r) == attr_value(attrs@, attr_name@),
{
    let key = attr_name.to_owned().concat("=\"");
    let a = text::chars_of(attrs);
    let b = text::chars_of(key.as_str());
    let n: usize = a.len();
    let mut i: usize = 0;
    proof {
        assert(attrs@.skip(0) =~= attrs@);
    }
    while !text::occurs_at(&a, &b, i)
        invariant
            a@ == attrs@,
            b@ == key@,
            key@ == attr_name@ + "=\""@,
            n == attrs@.len(),
            i <= n,
            behind(attrs@, key@) == behind(attrs@.skip(i as int), key@),
        decreases n - i,
    {
        if i == n {
            return None;
        }
        proof {
            assert(attrs@.skip(i as int).skip(1) =~= attrs@.skip(i + 1));
        }
        i += 1;
    }
    let from: usize = i + b.len();
    proof {
        assert(attrs@.skip(i as int).skip(key@.len() as int) =~= attrs@.skip(from as int));
        assert(attrs@.subrange(from as int, n as int) =~= attrs@.skip(from as int));
    }
    let rest = attrs.substring_char(from, n);
    match text::split_once(rest, '"') {
        Some((value, _)) => Some(value.to_owned()),
        None => None,
    }
}

/// Text with the angle brackets that it holds in escaped form.
pub open spec fn unescaped(s: Seq<char>) -> Seq<char> {
    text::replace(text::replace(s, "&gt;"@, ">"@), "&lt;"@, "<"@)
}

fn unescape(s: &str) -> (r: String)
    ensures
        r@ == unescaped(s@),
{
    proof {
        reveal_strlit("&gt;");
        reveal_strlit("&lt;");
    }
    let once = text::replace_text(s, "&gt;", ">");
    text::replace_text(once.as_str(), "&lt;", "<")
}

/// The versions of Python that a link asks for.
pub open spec fn requires_python(attrs: Seq<char>) -> JsonView {
    match attr_value(attrs, "data-requires-python"@) {
        Some(v) => JsonView::Str(unescaped(v)),
        None => JsonView::Null,
    }
}

/// What is said of a file that a link leads to, given the groups of the link:
/// the address, the attributes behind it and the text.
pub open spec fn link_entry(groups: Seq<Option<Seq<char>>>, base_url: Seq<char>) -> Option<
    JsonView,
> {
    match (pattern::group(groups, 1), pattern::group(groups, 2), pattern::group(groups, 3)) {
        (Some(href), Some(attrs), Some(label)) => Some(
            JsonView::object().put("filename"@, JsonView::Str(text::trimmed(label))).put(
                "url"@,
                JsonView::Str(link_url(href, base_url)),
            ).put("hashes"@, link_hashes(href)).put(
                "requires-python"@,
                requires_python(attrs),
            ).put("yanked"@, JsonView::Bool(text::has_text(attrs, "data-yanked"@))),
        ),
        _ => None,
    }
}

/// What is said of the files that links lead to.
pub open spec fn link_entries(links: Seq<Seq<Option<Seq<char>>>>, base_url: Seq<char>) -> Seq<
    JsonView,
>
    decreases links.len(),
{
    if links.len() == 0 {
        Seq::empty()
    } else {
        let front = link_entries(links.drop_last(), base_url);
        match link_entry(links.last(), base_url) {
            Some(entry) => front.push(entry),
            None => front,
        }
    }
}

/// The package that a title names.
pub open spec fn title_name(title: Option<Seq<Option<Seq<char>>>>) -> Seq<char> {
    match title {
        Some(groups) => match pattern::group(groups, 1) {
            Some(name) => text::trimmed(name),
            None => Seq::empty(),
        },
        None => Seq::empty(),
    }
}

/// A package list in its JSON form, given the groups of its title and links.
pub open spec fn list_json(
    title: Option<Seq<Option<Seq<char>>>>,
    links: Seq<Seq<Option<Seq<char>>>>,
    base_url: Seq<char>,
) -> JsonView {
    JsonView::object().put(
        "meta"@,
        JsonView::object().put("api-version"@, JsonView::Str("1.0"@)),
    ).put("name"@, JsonView::Str(title_name(title))).put(
        "files"@,
        JsonView::Array(link_entries(links, text::trim_end(base_url, '/'))),
    )
}

fn entry_of(groups: &Vec<Option<String>>, base_url: &str) -> (r: Option<Json>)
    ensures
        match r {
            Some(v) => link_entry(pattern::groups_view(groups@), base_url@) == Some(v@),
            None => link_entry(pattern::groups_view(groups@), base_url@) is None,
        },
{
    let href = match pattern::group_of(groups, 1) {
        Some(s) => s,
        None => {
            return None;
        },
    };
    let attrs = match pattern::group_of(groups, 2) {
        Some(s) => s,
        None => {
            return None;
        },
    };
    let label = match pattern::group_of(groups, 3) {
        Some(s) => s,
        None => {
            return None;
        },
    };
    let (url, hashes) = extract_url_and_hashes_for_json(href, base_url);
    let python = match extract_attr_value(attrs, "data-requires-python") {
        Some(v) => Json::Str(unescape(v.as_str())),
        None => Json::Null,
    };
    let yanked = text::contains(attrs, "data-yanked");
    Some(
        Json::object().put("filename", Json::string(text::trim(label))).put(
            "url",
            Json::Str(url),
        ).put("hashes", hashes).put("requires-python", python).put("yanked", Json::Bool(yanked)),
    )
}

/// A package list in its JSON form, given the groups of its title and links.
pub fn list_as_json(
    title: &Option<Vec<Option<String>>>,
    links: &Vec<Vec<Option<String>>>,
    base_url: &str,
) -> (r: Json)
    ensures
        r@ == list_json(pattern::match_view(*title), pattern::matches_view(links@), base_url@),
{
    let base = text::trim_end_char(base_url, '/');
    let name = match title {
        Some(groups) => match pattern::group_of(groups, 1) {
            Some(s) => text::trim(s).to_owned(),
            None => String::new(),
        },
        None => String::new(),
    };
    let ghost all = pattern::matches_view(links@);
    let mut files: Vec<Json> = Vec::new();
    let mut i: usize = 0;
    proof {
        assert(all.take(0) =~= Seq::empty());
        assert(json::items_view(files@) =~= Seq::empty());
    }
    while i < links.len()
        invariant
            i <= links@.len(),
            all == pattern::matches_view(links@),
            json::items_view(files@) == link_entries(all.take(i as int), base@),
        decreases links@.len() - i,
    {
        proof {
            assert(all.take(i + 1).drop_last() =~= all.take(i as int));
            assert(all.take(i + 1).last() == all[i as int]);
        }
        let ghost before = json::items_view(files@);
        if let Some(entry) = entry_of(&links[i], base) {
            let ghost shown = entry@;
            files.push(entry);
            proof {
                assert(json::items_view(files@) =~= before.push(shown));
            }
        }
        i += 1;
    }
    proof {
        assert(all.take(all.len() as int) =~= all);
        json::lemma_array_view(files);
    }
    Json::object().put("meta", Json::object().put("api-version", Json::string("1.0"))).put(
        "name",
        Json::Str(name),
    ).put("files", Json::Array(files))
}

/// A package list in its JSON form.
pub open spec fn page_json(html: Seq<char>, base_url: Seq<char>) -> JsonView {
    list_json(
        pattern::first_match(r#"<title>\s*Links for\s+(.*?)\s*</title>"#@, html),
        pattern::all_matches(r#"<a[^>]+href="([^"]+)"([^>]*)>([^<]+)</a>"#@, html),
        base_url,
    )
}

/// Turns the page of a package list into its JSON form.
pub fn convert_html_to_pep691_json(html: &str, base_url: &str) -> (r: Json)
    ensures
        r@ == page_json(html@, base_url@),
{
    let title = pattern::captures(r#"<title>\s*Links for\s+(.*?)\s*</title>"#, html);
    let links = pattern::captures_all(r#"<a[^>]+href="([^"]+)"([^>]*)>([^<]+)</a>"#, html);
    list_as_json(&title, &links, base_url)
}

/// The version of a file that is listed with too young a time.
pub open spec fn young_version(
    filename: Seq<char>,
    times: Seq<(Seq<char>, Timestamp)>,
    cutoff: Timestamp,
) -> Option<Seq<char>> {
    match file_parts(filename) {
        Some((_, version)) => match names::lookup(times, version) {
            Some(t) => if t.le(cutoff) {
                None
            } else {
                Some(version)
            },
            None => None,
        },
        None => None,
    }
}

fn young_version_of(filename: &str, time_info: &VersionTimeInfo, checker: &DelayChecker) -> (r:
    Option<String>)
    ensures
        text::opt_view(r) == young_version(filename@, time_info@, checker.cutoff()),
{
    match parse_package_filename(filename) {
        Some((_, version)) => match time_info.get_publish_time(version.as_str()) {
            Some(t) => if checker.is_version_allowed(t) {
                None
            } else {
                Some(version)
            },
            None => None,
        },
        None => None,
    }
}

/// A page without the links to files that are too young, and their versions,
/// given the groups of the links: the whole link, its address and its text.
pub open spec fn hide_links(
    html: Seq<char>,
    links: Seq<Seq<Option<Seq<char>>>>,
    times: Seq<(Seq<char>, Timestamp)>,
    cutoff: Timestamp,
) -> (Seq<char>, Seq<Seq<char>>)
    decreases links.len(),
{
    if links.len() == 0 {
        (html, Seq::empty())
    } else {
        let (page, blocked) = hide_links(html, links.drop_last(), times, cutoff);
        match (pattern::group(links.last(), 0), pattern::group(links.last(), 2)) {
            (Some(whole), Some(label)) => match young_version(label, times, cutoff) {
                Some(version) => (
                    text::replace(page, whole, Seq::empty()),
                    blocked.push(version),
                ),
                None => (page, blocked),
            },
            _ => (page, blocked),
        }
    }
}

/// A page without the links to files that are too young, and their versions,
/// given the groups of the links.
pub fn hide_young_links(
    html: &str,
    links: &Vec<Vec<Option<String>>>,
    time_info: &VersionTimeInfo,
    checker: &DelayChecker,
) -> (r: (String, Vec<String>))
    ensures
        (r.0@, text::views(r.1@)) == hide_links(
            html@,
            pattern::matches_view(links@),
            time_info@,
            checker.cutoff(),
        ),
{
    let ghost all = pattern::matches_view(links@);
    let mut page = html.to_owned();
    let mut blocked: Vec<String> = Vec::new();
    let mut i: usize = 0;
    proof {
        assert(all.take(0) =~= Seq::empty());
        assert(text::views(blocked@) =~= Seq::empty());
    }
    while i < links.len()
        invariant
            i <= links@.len(),
            all == pattern::matches_view(links@),
            (page@, text::views(blocked@)) == hide_links(
                html@,
                all.take(i as int),
                time_info@,
                checker.cutoff(),
            ),
        decreases links@.len() - i,
    {
        proof {
            assert(all.take(i + 1).drop_last() =~= all.take(i as int));
            assert(all.take(i + 1).last() == all[i as int]);
        }
        if let Some(whole) = pattern::group_of(&links[i], 0) {
            if let Some(label) = pattern::group_of(&links[i], 2) {
                if let Some(version) = young_version_of(label, time_info, checker) {
                    if !whole.is_empty() {
                        page = text::replace_text(page.as_str(), whole, "");
                    }
                    let ghost before = text::views(blocked@);
                    let ghost added = version@;
                    blocked.push(version);
                    proof {
                        reveal_strlit("");
                        assert(""@ =~= Seq::<char>::empty());
                        assert(text::views(blocked@) =~= before.push(added));
                    }
                }
            }
        }
        i += 1;
    }
    proof {
        assert(all.take(all.len() as int) =~= all);
    }
    (page, blocked)
}

/// Hides the files of a page that are too young, and gives their versions.
pub fn filter_recent_versions_html(
    html: &str,
    time_info: &VersionTimeInfo,
    checker: &DelayChecker,
) -> (r: (String, Vec<String>))
    ensures
        (r.0@, text::views(r.1@)) == hide_links(
            html@,
            pattern::all_matches(r#"<a[^>]+href="([^"]+)"[^>]*>([^<]+)</a>"#@, html@),
            time_info@,
            checker.cutoff(),
        ),
{
    let links = pattern::captures_all(r#"<a[^>]+href="([^"]+)"[^>]*>([^<]+)</a>"#, html);
    hide_young_links(html, &links, time_info, checker)
}

/// The name under which a file is listed.
pub open spec fn listed_filename(file: JsonView) -> Seq<char> {
    match file.get_text("filename"@) {
        Some(name) => name,
        None => Seq::empty(),
    }
}

/// The files that are not too young, and the versions of those that are.
pub open spec fn hide_files(
    files: Seq<JsonView>,
    times: Seq<(Seq<char>, Timestamp)>,
    cutoff: Timestamp,
) -> (Seq<JsonView>, Seq<Seq<char>>)
    decreases files.len(),
{
    if files.len() == 0 {
        (Seq::empty(), Seq::empty())
    } else {
        let (kept, blocked) = hide_files(files.drop_last(), times, cutoff);
        let file = files.last();
        match young_version(listed_filename(file), times, cutoff) {
            Some(version) => (kept, blocked.push(or_else(file.get_text("version"@), version))),
            None => (kept.push(file), blocked),
        }
    }
}

/// A package list in JSON without the files that are too young, and their
/// versions.
pub open spec fn hide_in_list(
    list: JsonView,
    times: Seq<(Seq<char>, Timestamp)>,
    cutoff: Timestamp,
) -> (JsonView, Seq<Seq<char>>) {
    match list.get("files"@) {
        Some(JsonView::Array(files)) => {
            let (kept, blocked) = hide_files(files, times, cutoff);
            (list.put("files"@, JsonView::Array(kept)), blocked)
        },
        _ => (list, Seq::empty()),
    }
}

/// Hides the files of a package list in JSON that are too young, and gives their
/// versions.
pub fn filter_recent_versions_json(
    list: Json,
    time_info: &VersionTimeInfo,
    checker: &DelayChecker,
) -> (r: (Json, Vec<String>))
    ensures
        (r.0@, text::views(r.1@)) == hide_in_list(list@, time_info@, checker.cutoff()),
{
    let mut kept: Vec<Json> = Vec::new();
    let mut blocked: Vec<String> = Vec::new();
    proof {
        assert(text::views(blocked@) =~= Seq::empty());
        assert(json::items_view(kept@) =~= Seq::empty());
    }
    match list.get("files") {
        Some(value) => match value {
            Json::Array(files) => {
                let ghost all = json::items_view(files@);
                let mut i: usize = 0;
                proof {
                    json::lemma_array_view(*files);
                    assert(all.take(0) =~= Seq::empty());
                }
                while i < files.len()
                    invariant
                        i <= files@.len(),
                        all == json::items_view(files@),
                        (json::items_view(kept@), text::views(blocked@)) == hide_files(
                            all.take(i as int),
                            time_info@,
                            checker.cutoff(),
                        ),
                    decreases files@.len() - i,
                {
                    let file = &files[i];
                    let ghost before = json::items_view(kept@);
                    let ghost hidden = text::views(blocked@);
                    proof {
                        assert(all.take(i + 1).drop_last() =~= all.take(i as int));
                        assert(all.take(i + 1).last() == file@);
                        reveal_strlit("");
                        assert(""@ =~= Seq::<char>::empty());
                    }
                    let filename = match file.get_str("filename") {
                        Some(name) => name,
                        None => "",
                    };
                    match young_version_of(filename, time_info, checker) {
                        Some(version) => {
                            let shown = match file.get_str("version") {
                                Some(v) => v.to_owned(),
                                None => version,
                            };
                            let ghost added = shown@;
                            blocked.push(shown);
                            proof {
                                assert(text::views(blocked@) =~= hidden.push(added));
                            }
                        },
                        None => {
                            kept.push(file.clone());
                            proof {
                                assert(json::items_view(kept@) =~= before.push(file@));
                            }
                        },
                    }
                    i += 1;
                }
                proof {
                    assert(all.take(all.len() as int) =~= all);
                    json::lemma_array_view(kept);
                }
            },
            _ => {
                return (list, blocked);
            },
        },
        None => {
            return (list, blocked);
        },
    }
    (list.put("files", Json::Array(kept)), blocked)
}

/// No file that is too young is left in a filtered list, and every other file
/// is.
pub proof fn law_young_files_hidden(
    files: Seq<JsonView>,
    times: Seq<(Seq<char>, Timestamp)>,
    cutoff: Timestamp,
    file: JsonView,
)
    ensures
        hide_files(files, times, cutoff).0.contains(file) <==> files.contains(file)
            && young_version(listed_filename(file), times, cutoff) is None,
    decreases files.len(),
{
    if files.len() > 0 {
        let front = files.drop_last();
        law_young_files_hidden(front, times, cutoff, file);
        let shorter = hide_files(front, times, cutoff).0;
        let kept = hide_files(files, times, cutoff).0;
        let last = files.last();
        if front.contains(file) {
            let k = choose|k: int| 0 <= k < front.len() && front[k] == file;
            assert(files[k] == file);
        }
        if files.contains(file) && file != last {
            let k = choose|k: int| 0 <= k < files.len() && files[k] == file;
            assert(front[k] == file);
        }
        if file == last {
            assert(files[files.len() - 1] == file);
        }
        if shorter.contains(file) {
            let k = choose|k: int| 0 <= k < shorter.len() && shorter[k] == file;
            assert(kept[k] == file);
        }
        if young_version(listed_filename(last), times, cutoff) is None {
            assert(kept[kept.len() - 1] == last);
            if kept.contains(file) && file != last {
                let k = choose|k: int| 0 <= k < kept.len() && kept[k] == file;
                assert(shorter[k] == file);
            }
        }
    }
}


/// Where the index of all packages is found.
pub fn simple_index_url(config: &Config) -> (r: String)
    ensures
        r@ == text::trim_end(config.pypi_registry@, '/') + "/"@,
{
    text::trim_end_char(config.pypi_registry.as_str(), '/').to_owned().concat("/")
}

/// The answer with the index of all packages, from what came of asking for it,
/// or a message.
pub fn handle_pypi_simple_index(page: PageFetch) -> (r: Result<Reply, String>)
    ensures
        match page {
            PageFetch::NotSent(e) => r matches Err(m) && m@
                == "Failed to create upstream request: "@ + e@,
            PageFetch::NotAnswered(e) => r matches Err(m) && m@
                == "Failed to connect to upstream PyPI registry: "@ + e@,
            PageFetch::Unreadable { status, error } => r matches Err(m) && m@ == (
            if fetch::success(status) {
                "Failed to read upstream response: "@ + error@
            } else {
                "upstream PyPI simple index error: status="@ + text::decimal(status as int)
                    + ", context=simple index fetch"@
            }),
            PageFetch::Read { status, body } => if fetch::success(status) {
                r matches Ok(reply) && reply@ == ReplyView::text(200, body@).header(
                    "X-Delay-Info"@,
                    "Simple index does not contain timing data"@,
                ).header("Content-Type"@, "text/html; charset=utf-8"@)
            } else {
                r matches Err(m) && m@ == "upstream PyPI simple index error: status="@
                    + text::decimal(status as int) + ", context=simple index fetch"@
            },
        },
{
    match page {
        PageFetch::NotSent(e) => Err(
            "Failed to create upstream request: ".to_owned().concat(e.as_str()),
        ),
        PageFetch::NotAnswered(e) => Err(
            "Failed to connect to upstream PyPI registry: ".to_owned().concat(e.as_str()),
        ),
        PageFetch::Unreadable { status, error } => if fetch::is_success(status) {
            Err("Failed to read upstream response: ".to_owned().concat(error.as_str()))
        } else {
            Err(
                "upstream PyPI simple index error: status=".to_owned().concat(
                    text::decimal_text(status as i64).as_str(),
                ).concat(", context=simple index fetch"),
            )
        },
        PageFetch::Read { status, body } => if fetch::is_success(status) {
            Ok(
                Reply::text(200, body).header(
                    "X-Delay-Info",
                    "Simple index does not contain timing data",
                ).header("Content-Type", "text/html; charset=utf-8"),
            )
        } else {
            Err(
                "upstream PyPI simple index error: status=".to_owned().concat(
                    text::decimal_text(status as i64).as_str(),
                ).concat(", context=simple index fetch"),
            )
        },
    }
}

/// The times that the metadata of a package gives, where it gives any.
pub open spec fn info_times(info: JsonView) -> Option<Seq<(Seq<char>, Timestamp)>> {
    match info.get("releases"@) {
        Some(releases) => match release_times(releases) {
            Ok(field) => match delay_check::field_times(field) {
                Ok(times) => Some(times),
                Err(_) => None,
            },
            Err(_) => None,
        },
        None => None,
    }
}

fn times_of_info(info: &Json, checker: &DelayChecker) -> (r: Option<VersionTimeInfo>)
    ensures
        match r {
            Some(i) => info_times(info@) == Some(i@),
            None => info_times(info@) is None,
        },
{
    match info.get("releases") {
        Some(releases) => match crate::pypi_handler::build_version_time_info_from_releases(
            releases,
        ) {
            Ok(field) => match checker.parse_time_field(&field) {
                Ok(i) => Some(i),
                Err(_) => None,
            },
            Err(_) => None,
        },
        None => None,
    }
}

/// The versions published after `cutoff`, in order.
pub open spec fn recent(times: Seq<(Seq<char>, Timestamp)>, cutoff: Timestamp) -> Seq<Seq<char>>
    decreases times.len(),
{
    if times.len() == 0 {
        Seq::empty()
    } else if times.last().1.le(cutoff) {
        recent(times.drop_last(), cutoff)
    } else {
        recent(times.drop_last(), cutoff).push(times.last().0)
    }
}

fn recent_versions(time_info: &VersionTimeInfo, checker: &DelayChecker) -> (r: Vec<String>)
    ensures
        text::views(r@) == recent(time_info@, checker.cutoff()),
{
    let names = time_info.versions();
    let ghost all = time_info@;
    let mut r: Vec<String> = Vec::new();
    let mut i: usize = 0;
    proof {
        assert(all.take(0) =~= Seq::empty());
        assert(text::views(r@) =~= Seq::empty());
        assert(text::views(names@).len() == all.len());
    }
    while i < names.len()
        invariant
            i <= names@.len(),
            names@.len() == all.len(),
            all == time_info@,
            names::in_order(all),
            text::views(names@) == all.map_values(|e: (Seq<char>, Timestamp)| e.0),
            text::views(r@) == recent(all.take(i as int), checker.cutoff()),
        decreases names@.len() - i,
    {
        proof {
            assert(all.take(i + 1).drop_last() =~= all.take(i as int));
            assert(all.take(i + 1).last() == all[i as int]);
            assert(text::views(names@)[i as int] == all[i as int].0);
            names::lemma_lookup_index(all, i as int);
        }
        let allowed = match time_info.get_publish_time(names[i].as_str()) {
            Some(t) => checker.is_version_allowed(t),
            None => true,
        };
        if !allowed {
            let ghost before = text::views(r@);
            r.push(names[i].clone());
            proof {
                assert(text::views(r@) =~= before.push(all[i as int].0));
            }
        }
        i += 1;
    }
    proof {
        assert(all.take(all.len() as int) =~= all);
    }
    r
}

/// Whether a client asks for the JSON form of package lists.
pub open spec fn wants_json(accept: Seq<char>) -> bool {
    text::has_text(accept, "application/vnd.pypi.simple.v1+json"@)
}

/// The type of a package list.
pub open spec fn list_type(json: bool) -> Seq<char> {
    if json {
        "application/vnd.pypi.simple.v1+json"@
    } else {
        "text/html; charset=utf-8"@
    }
}

fn list_type_text(json: bool) -> (r: &'static str)
    ensures
        r@ == list_type(json),
{
    if json {
        "application/vnd.pypi.simple.v1+json"
    } else {
        "text/html; charset=utf-8"
    }
}

/// An answer that names the versions which it hides, where there are any.
pub open spec fn with_hidden(reply: ReplyView, blocked: Seq<Seq<char>>) -> ReplyView {
    if blocked.len() > 0 {
        reply.header("X-Delay-Hidden-Versions"@, text::join(blocked, ", "@))
    } else {
        reply
    }
}

fn name_hidden(reply: Reply, blocked: &Vec<String>) -> (r: Reply)
    ensures
        r@ == with_hidden(reply@, text::views(blocked@)),
{
    if blocked.len() > 0 {
        let list = text::join_all(blocked, ", ");
        reply.header("X-Delay-Hidden-Versions", list.as_str())
    } else {
        reply
    }
}

/// A package list from which files that are too young are hidden.
pub open spec fn strict_reply(
    registry: Seq<char>,
    html: Seq<char>,
    json: bool,
    times: Seq<(Seq<char>, Timestamp)>,
    cutoff: Timestamp,
) -> ReplyView {
    if json {
        let (list, blocked) = hide_in_list(page_json(html, registry), times, cutoff);
        with_hidden(
            ReplyView::json(200, list).header("Content-Type"@, list_type(true)),
            blocked,
        )
    } else {
        let (page, blocked) = hide_links(
            html,
            pattern::all_matches(r#"<a[^>]+href="([^"]+)"[^>]*>([^<]+)</a>"#@, html),
            times,
            cutoff,
        );
        with_hidden(
            ReplyView::text(200, page).header("Content-Type"@, list_type(false)),
            blocked,
        )
    }
}

/// The header that tells of versions which are too young.
pub open spec fn warning(
    times: Option<Seq<(Seq<char>, Timestamp)>>,
    cutoff: Timestamp,
) -> (Seq<char>, Seq<char>) {
    match times {
        Some(t) if recent(t, cutoff).len() > 0 => (
            "X-Delay-Warning"@,
            "Recent versions blocked by delay policy: "@ + text::join(recent(t, cutoff), ", "@),
        ),
        _ => (
            "X-Delay-Info"@,
            "Package list served; use download endpoint for delay enforcement"@,
        ),
    }
}

/// The answer with the list of the files of a package.
pub open spec fn list_reply(
    config: Config,
    cutoff: Timestamp,
    html: Seq<char>,
    info: JsonView,
    accept: Seq<char>,
) -> ReplyView {
    let json = wants_json(accept);
    let strict = config.pypi_filter_mode matches Some(mode) && mode@ == "strict"@;
    match info_times(info) {
        Some(times) if strict => strict_reply(config.pypi_registry@, html, json, times, cutoff),
        times => {
            let (name, value) = warning(times, cutoff);
            let plain = if json {
                ReplyView::json(200, page_json(html, config.pypi_registry@))
            } else {
                ReplyView::text(200, html)
            };
            plain.header(name, value).header("Content-Type"@, list_type(json))
        },
    }
}

/// A package list from which files that are too young are hidden.
pub fn strict_list(
    registry: &str,
    html: &str,
    json: bool,
    time_info: &VersionTimeInfo,
    checker: &DelayChecker,
) -> (r: Reply)
    ensures
        r@ == strict_reply(registry@, html@, json, time_info@, checker.cutoff()),
{
    if json {
        let (list, blocked) = filter_recent_versions_json(
            convert_html_to_pep691_json(html, registry),
            time_info,
            checker,
        );
        let reply = Reply::json(200, list).header("Content-Type", list_type_text(true));
        name_hidden(reply, &blocked)
    } else {
        let (page, blocked) = filter_recent_versions_html(html, time_info, checker);
        let reply = Reply::text(200, page).header("Content-Type", list_type_text(false));
        name_hidden(reply, &blocked)
    }
}

fn warn(reply: Reply, time_info: &Option<VersionTimeInfo>, checker: &DelayChecker) -> (r: Reply)
    ensures
        match time_info {
            Some(i) => r@ == reply@.header(
                warning(Some(i@), checker.cutoff()).0,
                warning(Some(i@), checker.cutoff()).1,
            ),
            None => r@ == reply@.header(
                warning(None, checker.cutoff()).0,
                warning(None, checker.cutoff()).1,
            ),
        },
{
    if let Some(info) = time_info {
        let young = recent_versions(info, checker);
        proof {
            assert(text::views(young@).len() == young@.len());
        }
        if young.len() > 0 {
            let list = text::join_all(&young, ", ");
            let value = "Recent versions blocked by delay policy: ".to_owned().concat(
                list.as_str(),
            );
            return reply.header("X-Delay-Warning", value.as_str());
        }
    }
    reply.header(
        "X-Delay-Info",
        "Package list served; use download endpoint for delay enforcement",
    )
}

/// The answer with the list of the files of a package, given its page and its
/// metadata.
pub fn handle_pypi_package_list(
    config: &Config,
    checker: &DelayChecker,
    html: &str,
    info: &Json,
    accept: &str,
) -> (r: Reply)
    ensures
        r@ == list_reply(*config, checker.cutoff(), html@, info@, accept@),
{
    let json = text::contains(accept, "application/vnd.pypi.simple.v1+json");
    let strict = match &config.pypi_filter_mode {
        Some(mode) => text::same(mode.as_str(), "strict"),
        None => false,
    };
    let time_info = times_of_info(info, checker);
    if strict {
        if let Some(times) = &time_info {
            return strict_list(config.pypi_registry.as_str(), html, json, times, checker);
        }
    }
    let plain = if json {
        Reply::json(200, convert_html_to_pep691_json(html, config.pypi_registry.as_str()))
    } else {
        Reply::text(200, html.to_owned())
    };
    warn(plain, &time_info, checker).header("Content-Type", list_type_text(json))
}

/// The message for a package list that could not be had.
pub fn list_failure(package: &str, error: &str) -> (r: Reply)
    ensures
        r@ == ReplyView::text(
            500,
            "PyPI package list error for "@ + package@ + ": "@ + error@,
        ),
{
    Reply::text(
        500,
        "PyPI package list error for ".to_owned().concat(package).concat(": ").concat(error),
    )
}

/// What to do for a download: answer, fetch a file and check it against its
/// checksum, or pass on what a server sends, with headers added.
#[derive(Debug, PartialEq)]
pub enum FileAction {
    Answer(Reply),
    Verify { url: String, expected_hash: String },
    Fetch { url: String, headers: Vec<(String, String)> },
}

/// What an action says.
#[verifier::ext_equal]
pub enum FileActionView {
    Answer(ReplyView),
    Verify { url: Seq<char>, expected_hash: Seq<char> },
    Fetch { url: Seq<char>, headers: Seq<(Seq<char>, Seq<char>)> },
}

impl View for FileAction {
    type V = FileActionView;

    open spec fn view(&self) -> FileActionView {
        match self {
            FileAction::Answer(r) => FileActionView::Answer(r@),
            FileAction::Verify { url, expected_hash } => FileActionView::Verify {
                url: url@,
                expected_hash: expected_hash@,
            },
            FileAction::Fetch { url, headers } => FileActionView::Fetch {
                url: url@,
                headers: crate::reply::headers_view(headers@),
            },
        }
    }
}

/// What is done for a file, given the times of all releases.
pub open spec fn file_action(
    config: Config,
    days: i64,
    cutoff: Timestamp,
    filename: Seq<char>,
    package: Seq<char>,
    version: Seq<char>,
    releases: JsonView,
    times: Seq<(Seq<char>, Timestamp)>,
) -> FileActionView {
    match delay_check::resolution(times, cutoff, version) {
        Ok(CheckView::Allowed) => {
            let url = or_else(
                download_url(releases, version, filename),
                config.pypi_download_base@ + "/"@ + filename,
            );
            match file_sha256(releases, version, filename) {
                Some(expected_hash) => FileActionView::Verify { url, expected_hash },
                None => FileActionView::Fetch { url, headers: Seq::empty() },
            }
        },
        Ok(CheckView::Downgraded { suggested_version, .. }) => {
            let file = redirected_filename(filename, package, version, suggested_version);
            FileActionView::Fetch {
                url: or_else(
                    download_url(releases, suggested_version, file),
                    config.pypi_download_base@ + "/"@ + file,
                ),
                headers: seq![
                    ("X-Delay-Original-Version"@, version),
                    ("X-Delay-Redirected-Version"@, suggested_version),
                    ("X-Delay-Reason"@, "Version too recent, auto-downloaded for security"@),
                ],
            }
        },
        Ok(CheckView::Denied { .. }) => FileActionView::Answer(
            ReplyView::json(
                403,
                denial(package, version, too_recent(days), suggestion(times, cutoff, version)),
            ).header("X-Delay-Original-Version"@, version).header(
                "X-Delay-Reason"@,
                "Version published too recently, below delay threshold"@,
            ),
        ),
        Err(ErrorView::VersionNotFound(_)) => FileActionView::Answer(
            ReplyView::text(
                404,
                "Version not found in package releases: package="@ + package + ", version="@
                    + version,
            ),
        ),
        Err(e) => FileActionView::Answer(
            ReplyView::text(500, "Delay check failed: "@ + e.message()),
        ),
    }
}

/// Decides what is done for a file, given the times of all releases.
pub fn decide_file(
    config: &Config,
    checker: &DelayChecker,
    filename: &str,
    package: &str,
    version: &str,
    releases: &Json,
    time_info: &VersionTimeInfo,
    client_ip: Option<&str>,
) -> (r: (FileAction, Vec<DelayLogEntry>))
    ensures
        delay_logger::all_dated(r.1@),
        r.0@ == file_action(
            *config,
            checker.days(),
            checker.cutoff(),
            filename@,
            package@,
            version@,
            releases@,
            time_info@,
        ),
        delay_logger::log_views(r.1@) == file_lines(
            checker.days(),
            checker.cutoff(),
            package@,
            version@,
            time_info@,
            text::slice_view(client_ip),
        ),
{
    let logs = log_file(checker, package, version, time_info, client_ip);
    match checker.resolve_version(version, time_info) {
        Ok(VersionCheckResult::Allowed) => {
            let url = string_or_else(
                find_download_url_for_version(releases, version, filename),
                config.pypi_download_base.clone().concat("/").concat(filename),
            );
            match find_sha256_for_file(releases, version, filename) {
                Some(expected_hash) => (FileAction::Verify { url, expected_hash }, logs),
                None => {
                    let headers: Vec<(String, String)> = Vec::new();
                    proof {
                        assert(crate::reply::headers_view(headers@) =~= Seq::empty());
                    }
                    (FileAction::Fetch { url, headers }, logs)
                },
            }
        },
        Ok(VersionCheckResult::Downgraded { suggested_version, .. }) => {
            let suggested = suggested_version.as_str();
            let file = redirect_filename(filename, package, version, suggested);
            let url = string_or_else(
                find_download_url_for_version(releases, suggested, file.as_str()),
                config.pypi_download_base.clone().concat("/").concat(file.as_str()),
            );
            let mut headers: Vec<(String, String)> = Vec::new();
            headers.push(("X-Delay-Original-Version".to_owned(), version.to_owned()));
            headers.push(("X-Delay-Redirected-Version".to_owned(), suggested.to_owned()));
            headers.push(
                (
                    "X-Delay-Reason".to_owned(),
                    "Version too recent, auto-downloaded for security".to_owned(),
                ),
            );
            proof {
                assert(crate::reply::headers_view(headers@) =~= seq![
                    ("X-Delay-Original-Version"@, version@),
                    ("X-Delay-Redirected-Version"@, suggested@),
                    ("X-Delay-Reason"@, "Version too recent, auto-downloaded for security"@),
                ]);
            }
            (FileAction::Fetch { url, headers }, logs)
        },
        Ok(VersionCheckResult::Denied { .. }) => {
            let suggested = suggested_version(checker, version, time_info);
            let reason = too_recent_text(checker.delay_days());
            let reply = Reply::json(
                403,
                denial_json(package, version, reason.as_str(), &suggested),
            ).header("X-Delay-Original-Version", version).header(
                "X-Delay-Reason",
                "Version published too recently, below delay threshold",
            );
            (FileAction::Answer(reply), logs)
        },
        Err(e) => {
            let reply = if let DelayCheckError::VersionNotFound { .. } = e {
                Reply::text(
                    404,
                    "Version not found in package releases: package=".to_owned().concat(
                        package,
                    ).concat(", version=").concat(version),
                )
            } else {
                Reply::text(
                    500,
                    "Delay check failed: ".to_owned().concat(e.to_string().as_str()),
                )
            };
            (FileAction::Answer(reply), logs)
        },
    }
}

/// The releases that metadata lists and their times, or the answer where they
/// cannot be had, for a file of a version.
pub open spec fn releases_or_reply(metadata: JsonView, package: Seq<char>, version: Seq<char>) -> Result<
    (JsonView, Seq<(Seq<char>, Timestamp)>),
    ReplyView,
> {
    match metadata.get("releases"@) {
        None => Err(
            ReplyView::text(
                500,
                "Unable to determine version age: PyPI JSON API response does not contain 'releases' field"@,
            ),
        ),
        Some(releases) => match releases.get(version) {
            None => Err(
                ReplyView::text(
                    404,
                    "Version not found in package releases: package="@ + package + ", version="@
                        + version,
                ),
            ),
            Some(files) => match upload_text(files) {
                None => Err(
                    ReplyView::text(
                        500,
                        "Upload time not found: Release files do not contain upload_time information"@,
                    ),
                ),
                Some(t) => match upload_time(t, delay_check::flexible_time(t)) {
                    Err(e) => Err(
                        ReplyView::text(500, "Failed to parse upload time: "@ + e.message()),
                    ),
                    Ok(_) => match release_times(releases) {
                        Err(e) => Err(
                            ReplyView::text(
                                500,
                                "Failed to build version timing info: "@ + e.message(),
                            ),
                        ),
                        Ok(field) => match delay_check::field_times(field) {
                            Err(e) => Err(
                                ReplyView::text(
                                    500,
                                    "Failed to parse version timing information: "@ + e.message(),
                                ),
                            ),
                            Ok(times) => Ok((releases, times)),
                        },
                    },
                },
            },
        },
    }
}

/// The package and version of a file, or the answer where it is of neither kind.
pub fn file_request(filename: &str) -> (r: Result<(String, String), Reply>)
    ensures
        match r {
            Ok((package, version)) => file_parts(filename@) == Some((package@, version@)),
            Err(reply) => file_parts(filename@) is None && reply@ == ReplyView::text(
                400,
                "Invalid filename format: Filename must be a valid wheel (.whl) or sdist (.tar.gz) format"@,
            ),
        },
{
    match parse_package_filename(filename) {
        Some(parts) => Ok(parts),
        None => Err(
            Reply::text(
                400,
                "Invalid filename format: Filename must be a valid wheel (.whl) or sdist (.tar.gz) format".to_owned(),
            ),
        ),
    }
}

/// The releases that metadata lists and their times, or the answer where they
/// cannot be had, for a file of a version.
pub fn releases_with_times<'a>(
    metadata: &'a Json,
    checker: &DelayChecker,
    package: &str,
    version: &str,
) -> (r: Result<(&'a Json, VersionTimeInfo), Reply>)
    ensures
        match r {
            Ok((releases, info)) => releases_or_reply(metadata@, package@, version@) == Ok::<
                _,
                ReplyView,
            >((releases@, info@)),
            Err(reply) => releases_or_reply(metadata@, package@, version@) == Err::<
                (JsonView, Seq<(Seq<char>, Timestamp)>),
                _,
            >(reply@),
        },
{
    let releases = match metadata.get("releases") {
        Some(v) => v,
        None => {
            return Err(
                Reply::text(
                    500,
                    "Unable to determine version age: PyPI JSON API response does not contain 'releases' field".to_owned(),
                ),
            );
        },
    };
    let files = match releases.get(version) {
        Some(v) => v,
        None => {
            let m = "Version not found in package releases: package=".to_owned().concat(
                package,
            ).concat(", version=").concat(version);
            return Err(Reply::text(404, m));
        },
    };
    match first_upload_time(files) {
        None => {
            return Err(
                Reply::text(
                    500,
                    "Upload time not found: Release files do not contain upload_time information".to_owned(),
                ),
            );
        },
        Some(t) => match parse_upload_time(t) {
            Ok(_) => {},
            Err(e) => {
                let m = "Failed to parse upload time: ".to_owned().concat(e.to_string().as_str());
                return Err(Reply::text(500, m));
            },
        },
    }
    let field = match crate::pypi_handler::build_version_time_info_from_releases(releases) {
        Ok(v) => v,
        Err(e) => {
            let m = "Failed to build version timing info: ".to_owned().concat(
                e.to_string().as_str(),
            );
            return Err(Reply::text(500, m));
        },
    };
    match checker.parse_time_field(&field) {
        Ok(info) => Ok((releases, info)),
        Err(e) => {
            let m = "Failed to parse version timing information: ".to_owned().concat(
                e.to_string().as_str(),
            );
            Err(Reply::text(500, m))
        },
    }
}

/// Decides what is done for a file of a package, given the metadata of the
/// package.
pub fn handle_pypi_download(
    config: &Config,
    checker: &DelayChecker,
    filename: &str,
    package: &str,
    version: &str,
    metadata: &Json,
    client_ip: Option<&str>,
) -> (r: (FileAction, Vec<DelayLogEntry>))
    ensures
        delay_logger::all_dated(r.1@),
        match releases_or_reply(metadata@, package@, version@) {
            Err(reply) => r.0@ == FileActionView::Answer(reply) && r.1@.len() == 0,
            Ok((releases, times)) => {
                &&& r.0@ == file_action(
                    *config,
                    checker.days(),
                    checker.cutoff(),
                    filename@,
                    package@,
                    version@,
                    releases,
                    times,
                )
                &&& delay_logger::log_views(r.1@) == file_lines(
                    checker.days(),
                    checker.cutoff(),
                    package@,
                    version@,
                    times,
                    text::slice_view(client_ip),
                )
            },
        },
{
    match releases_with_times(metadata, checker, package, version) {
        Err(reply) => (FileAction::Answer(reply), Vec::new()),
        Ok((releases, info)) => decide_file(
            config,
            checker,
            filename,
            package,
            version,
            releases,
            &info,
            client_ip,
        ),
    }
}

/// The answer for a file whose bytes do not have the expected checksum.
pub fn hash_failure(detail: &str, package: &str, version: &str, filename: &str, url: &str) -> (r:
    Reply)
    ensures
        r@ == ReplyView::labelled_json(
            500,
            JsonView::object().put("error"@, JsonView::Str("Hash verification failed"@)).put(
                "detail"@,
                JsonView::Str(detail@),
            ).put("package"@, JsonView::Str(package@)).put("version"@, JsonView::Str(version@)).put(
                "filename"@,
                JsonView::Str(filename@),
            ).put("url"@, JsonView::Str(url@)),
        ),
{
    Reply::labelled_json(
        500,
        Json::object().put("error", Json::string("Hash verification failed")).put(
            "detail",
            Json::string(detail),
        ).put("package", Json::string(package)).put("version", Json::string(version)).put(
            "filename",
            Json::string(filename),
        ).put("url", Json::string(url)),
    )
}

/// A version list warns of a version exactly if that version would not be served
/// as it is.
pub proof fn law_warned_versions(
    times: Seq<(Seq<char>, Timestamp)>,
    cutoff: Timestamp,
    version: Seq<char>,
)
    requires
        names::in_order(times),
    ensures
        recent(times, cutoff).contains(version) <==> (names::lookup(times, version) is Some
            && delay_check::resolution(times, cutoff, version) != Ok::<CheckView, ErrorView>(
            CheckView::Allowed,
        )),
    decreases times.len(),
{
    lemma_recent(times, cutoff, version);
}

proof fn lemma_recent(times: Seq<(Seq<char>, Timestamp)>, cutoff: Timestamp, version: Seq<char>)
    requires
        names::in_order(times),
    ensures
        recent(times, cutoff).contains(version) <==> (names::lookup(times, version) matches Some(t)
            && !t.le(cutoff)),
    decreases times.len(),
{
    if times.len() > 0 {
        let front = times.drop_last();
        names::lemma_front_order(times);
        lemma_recent(front, cutoff, version);
        let shorter = recent(front, cutoff);
        let list = recent(times, cutoff);
        let last = times.last();
        if shorter.contains(version) {
            let k = choose|k: int| 0 <= k < shorter.len() && shorter[k] == version;
            assert(list[k] == version);
        }
        if !last.1.le(cutoff) {
            assert(list[list.len() - 1] == last.0);
            if list.contains(version) && version != last.0 {
                let k = choose|k: int| 0 <= k < list.len() && list[k] == version;
                assert(shorter[k] == version);
            }
        }
        if last.0 == version {
            names::lemma_lookup_found(front, version);
            if let Some(v) = names::lookup(front, version) {
                let k = choose|k: int| 0 <= k < front.len() && front[k] == (version, v);
                assert(text::less(times[k].0, times[times.len() - 1].0));
                text::lemma_less_irreflexive(version);
            }
        }
    }
}

/// A file is fetched only for a version that is old enough: the one asked for, or
/// the newest that is.
pub proof fn law_file_old_enough(
    config: Config,
    days: i64,
    cutoff: Timestamp,
    filename: Seq<char>,
    package: Seq<char>,
    version: Seq<char>,
    releases: JsonView,
    times: Seq<(Seq<char>, Timestamp)>,
)
    requires
        names::in_order(times),
    ensures
        ({
            let action = file_action(
                config,
                days,
                cutoff,
                filename,
                package,
                version,
                releases,
                times,
            );
            !(action is Answer) ==> exists|served: Seq<char>|
                {
                    &&& #[trigger] names::lookup(times, served) matches Some(t)
                    &&& t.le(cutoff)
                    &&& if served == version {
                        action matches FileActionView::Fetch { headers, .. } ==> headers.len() == 0
                    } else {
                        action matches FileActionView::Fetch { headers, .. } && headers.contains(
                            ("X-Delay-Redirected-Version"@, served),
                        )
                    }
                }
        }),
{
    match delay_check::resolution(times, cutoff, version) {
        Ok(CheckView::Downgraded { suggested_version, .. }) => {
            delay_check::law_downgraded(times, cutoff, version);
            let headers = file_action(
                config,
                days,
                cutoff,
                filename,
                package,
                version,
                releases,
                times,
            )->Fetch_headers;
            assert(headers[1] == ("X-Delay-Redirected-Version"@, suggested_version));
            assert(names::lookup(times, suggested_version) is Some);
        },
        Ok(CheckView::Allowed) => {
            assert(names::lookup(times, version) is Some);
        },
        _ => {},
    }
}

/// Every check of a listed version is logged when a file of it is asked for, and
/// only a version that is old enough is logged as allowed.
pub proof fn law_check_logged(
    days: i64,
    cutoff: Timestamp,
    package: Seq<char>,
    version: Seq<char>,
    times: Seq<(Seq<char>, Timestamp)>,
    client_ip: Option<Seq<char>>,
)
    requires
        names::lookup(times, version) is Some,
    ensures
        ({
            let old_enough = names::lookup(times, version) matches Some(t) && t.le(cutoff);
            let lines = file_lines(days, cutoff, package, version, times, client_ip);
            &&& lines.len() == 1
            &&& lines[0].package_name == package
            &&& lines[0].original_version == version
            &&& (lines[0].action == delay_logger::DelayAction::Allowed) == old_enough
        }),
{
    delay_check::law_allowed(times, cutoff, version);
}

/// The version that a link leads to, where it is too young.
pub open spec fn young_link(
    groups: Seq<Option<Seq<char>>>,
    times: Seq<(Seq<char>, Timestamp)>,
    cutoff: Timestamp,
) -> Option<Seq<char>> {
    match (pattern::group(groups, 0), pattern::group(groups, 2)) {
        (Some(_), Some(label)) => young_version(label, times, cutoff),
        _ => None,
    }
}

/// The versions that are hidden from a page are exactly those of its links that
/// are too young, and a page without such links stays as it is.
pub proof fn law_hidden_links(
    html: Seq<char>,
    links: Seq<Seq<Option<Seq<char>>>>,
    times: Seq<(Seq<char>, Timestamp)>,
    cutoff: Timestamp,
    version: Seq<char>,
)
    ensures
        hide_links(html, links, times, cutoff).1.contains(version) <==> exists|i: int|
            0 <= i < links.len() && young_link(#[trigger] links[i], times, cutoff) == Some(version),
        (forall|i: int| 0 <= i < links.len() ==> young_link(#[trigger] links[i], times, cutoff) is None)
            ==> hide_links(html, links, times, cutoff).0 == html,
    decreases links.len(),
{
    if links.len() > 0 {
        let front = links.drop_last();
        let n = links.len() - 1;
        law_hidden_links(html, front, times, cutoff, version);
        let shorter = hide_links(html, front, times, cutoff).1;
        let all = hide_links(html, links, times, cutoff).1;
        assert(links.last() == links[n]);
        if shorter.contains(version) {
            let k = choose|k: int| 0 <= k < shorter.len() && shorter[k] == version;
            assert(all[k] == version);
            let i = choose|i: int|
                0 <= i < front.len() && young_link(#[trigger] front[i], times, cutoff) == Some(
                    version,
                );
            assert(young_link(links[i], times, cutoff) == Some(version));
        }
        if young_link(links[n], times, cutoff) == Some(version) {
            assert(all[all.len() - 1] == version);
        }
        if all.contains(version) && !shorter.contains(version) {
            let k = choose|k: int| 0 <= k < all.len() && all[k] == version;
            if k < shorter.len() {
                assert(shorter[k] == version);
            }
            assert(young_link(links[n], times, cutoff) == Some(version));
        }
        if exists|i: int|
            0 <= i < links.len() && young_link(#[trigger] links[i], times, cutoff) == Some(version) {
            let i = choose|i: int|
                0 <= i < links.len() && young_link(#[trigger] links[i], times, cutoff) == Some(
                    version,
                );
            if i < n {
                assert(young_link(front[i], times, cutoff) == Some(version));
            }
        }
        if forall|i: int|
            0 <= i < links.len() ==> young_link(#[trigger] links[i], times, cutoff) is None {
            assert forall|i: int| 0 <= i < front.len() implies young_link(
                #[trigger] front[i],
                times,
                cutoff,
            ) is None by {
                assert(young_link(links[i], times, cutoff) is None);
            }
            assert(young_link(links[n], times, cutoff) is None);
        }
    }
}

/// What is served in place of a file whose version is too young is a file of the
/// version that stands in: the one of the right name that its release lists, else the
/// first of that release, else the one of that name below the download base. The
/// headers name both versions.
pub proof fn law_replacement_file(
    config: Config,
    days: i64,
    cutoff: Timestamp,
    filename: Seq<char>,
    package: Seq<char>,
    version: Seq<char>,
    releases: JsonView,
    times: Seq<(Seq<char>, Timestamp)>,
    best: Seq<char>,
    name: Seq<char>,
    files: Seq<JsonView>,
    k: int,
)
    requires
        names::in_order(times),
        delay_check::resolution(times, cutoff, version) matches Ok(
            CheckView::Downgraded { suggested_version, .. },
        ) && suggested_version == best,
        name == redirected_filename(filename, package, version, best),
        releases.get(best) == Some(JsonView::Array(files)),
        0 <= k <= files.len(),
        k < files.len() ==> files[k].get("filename"@) == Some(JsonView::Str(name)),
        forall|i: int|
            0 <= i < k ==> (#[trigger] files[i]).get("filename"@) != Some(JsonView::Str(name)),
    ensures
        ({
            let action = file_action(
                config,
                days,
                cutoff,
                filename,
                package,
                version,
                releases,
                times,
            );
            let listed = if k < files.len() {
                files[k].get_text("url"@)
            } else if files.len() > 0 {
                files[0].get_text("url"@)
            } else {
                None
            };
            &&& action matches FileActionView::Fetch { url, headers }
            &&& url == (match listed {
                Some(u) => u,
                None => config.pypi_download_base@ + "/"@ + name,
            })
            &&& headers.contains(("X-Delay-Original-Version"@, version))
            &&& headers.contains(("X-Delay-Redirected-Version"@, best))
        }),
{
    crate::pypi_handler::law_release_file(releases, best, files, k, name);
    let action = file_action(config, days, cutoff, filename, package, version, releases, times);
    let headers = action->Fetch_headers;
    assert(headers[0] == ("X-Delay-Original-Version"@, version));
    assert(headers[1] == ("X-Delay-Redirected-Version"@, best));
}

/// The wheel that is fetched in place of a young one is the wheel with the same tags
/// of the version that stands in, from where the release of that version lists it.
pub proof fn law_replacement_wheel(
    config: Config,
    days: i64,
    cutoff: Timestamp,
    package: Seq<char>,
    version: Seq<char>,
    tags: Seq<char>,
    releases: JsonView,
    times: Seq<(Seq<char>, Timestamp)>,
    best: Seq<char>,
    files: Seq<JsonView>,
    k: int,
    address: Seq<char>,
)
    requires
        names::in_order(times),
        delay_check::resolution(times, cutoff, version) matches Ok(
            CheckView::Downgraded { suggested_version, .. },
        ) && suggested_version == best,
        !package.contains('-'),
        ".whl"@.is_suffix_of(tags),
        forall|i: int|
            0 <= i < tags.len() ==> !#[trigger] text::occurs(
                tags,
                seq!['-'] + version + seq!['-'],
                i,
            ),
        releases.get(best) == Some(JsonView::Array(files)),
        0 <= k < files.len(),
        files[k].get("filename"@) == Some(
            JsonView::Str(package + seq!['-'] + best + seq!['-'] + tags),
        ),
        files[k].get("url"@) == Some(JsonView::Str(address)),
        forall|i: int|
            0 <= i < k ==> (#[trigger] files[i]).get("filename"@) != Some(
                JsonView::Str(package + seq!['-'] + best + seq!['-'] + tags),
            ),
    ensures
        file_action(
            config,
            days,
            cutoff,
            package + seq!['-'] + version + seq!['-'] + tags,
            package,
            version,
            releases,
            times,
        ) matches FileActionView::Fetch { url, .. } && url == address,
{
    let filename = package + seq!['-'] + version + seq!['-'] + tags;
    let name = package + seq!['-'] + best + seq!['-'] + tags;
    crate::pypi_handler::law_replaced_wheel_name(package, version, tags, best);
    law_replacement_file(
        config,
        days,
        cutoff,
        filename,
        package,
        version,
        releases,
        times,
        best,
        name,
        files,
        k,
    );
}

/// The archive that is fetched in place of a young one is the archive of the version
/// that stands in, from where the release of that version lists it.
pub proof fn law_replacement_sdist(
    config: Config,
    days: i64,
    cutoff: Timestamp,
    filename: Seq<char>,
    package: Seq<char>,
    version: Seq<char>,
    releases: JsonView,
    times: Seq<(Seq<char>, Timestamp)>,
    best: Seq<char>,
    files: Seq<JsonView>,
    k: int,
    address: Seq<char>,
)
    requires
        names::in_order(times),
        delay_check::resolution(times, cutoff, version) matches Ok(
            CheckView::Downgraded { suggested_version, .. },
        ) && suggested_version == best,
        !".whl"@.is_suffix_of(filename),
        releases.get(best) == Some(JsonView::Array(files)),
        0 <= k < files.len(),
        files[k].get("filename"@) == Some(
            JsonView::Str(package + "-"@ + best + ".tar.gz"@),
        ),
        files[k].get("url"@) == Some(JsonView::Str(address)),
        forall|i: int|
            0 <= i < k ==> (#[trigger] files[i]).get("filename"@) != Some(
                JsonView::Str(package + "-"@ + best + ".tar.gz"@),
            ),
    ensures
        file_action(config, days, cutoff, filename, package, version, releases, times) matches
            FileActionView::Fetch { url, .. } && url == address,
{
    crate::pypi_handler::law_replaced_sdist_name(filename, package, version, best);
    law_replacement_file(
        config,
        days,
        cutoff,
        filename,
        package,
        version,
        releases,
        times,
        best,
        package + "-"@ + best + ".tar.gz"@,
        files,
        k,
    );
}

/// Where the version that stands in has no listed release, its file comes from below the
/// download base.
pub proof fn law_replacement_unlisted(
    config: Config,
    days: i64,
    cutoff: Timestamp,
    filename: Seq<char>,
    package: Seq<char>,
    version: Seq<char>,
    releases: JsonView,
    times: Seq<(Seq<char>, Timestamp)>,
    best: Seq<char>,
)
    requires
        delay_check::resolution(times, cutoff, version) matches Ok(
            CheckView::Downgraded { suggested_version, .. },
        ) && suggested_version == best,
        !(releases.get(best) matches Some(JsonView::Array(_))),
    ensures
        file_action(config, days, cutoff, filename, package, version, releases, times) matches
            FileActionView::Fetch { url, .. } && url == config.pypi_download_base@ + "/"@
            + redirected_filename(filename, package, version, best),
{
    crate::pypi_handler::law_no_release(
        releases,
        best,
        redirected_filename(filename, package, version, best),
    );
}

/// A file whose version is old enough is served from where its release lists the file
/// of that name, and held to the checksum that is listed with it, if there is one.
pub proof fn law_served_file(
    config: Config,
    days: i64,
    cutoff: Timestamp,
    filename: Seq<char>,
    package: Seq<char>,
    version: Seq<char>,
    releases: JsonView,
    times: Seq<(Seq<char>, Timestamp)>,
    files: Seq<JsonView>,
    k: int,
    address: Seq<char>,
)
    requires
        names::lookup(times, version) matches Some(t) && t.le(cutoff),
        releases.get(version) == Some(JsonView::Array(files)),
        0 <= k < files.len(),
        files[k].get("filename"@) == Some(JsonView::Str(filename)),
        files[k].get("url"@) == Some(JsonView::Str(address)),
        forall|i: int|
            0 <= i < k ==> (#[trigger] files[i]).get("filename"@) != Some(JsonView::Str(filename)),
    ensures
        ({
            let action = file_action(
                config,
                days,
                cutoff,
                filename,
                package,
                version,
                releases,
                times,
            );
            match files[k].get("sha256_digest"@) {
                Some(JsonView::Str(hash)) => action == (FileActionView::Verify {
                    url: address,
                    expected_hash: hash,
                }),
                _ => action matches FileActionView::Fetch { url, headers } && url == address
                    && headers.len() == 0,
            }
        }),
{
    crate::pypi_handler::law_release_file(releases, version, files, k, filename);
}

/// A file whose version is too young, with nothing to stand in, is refused with the
/// reason, and a version that is not listed is not found.
pub proof fn law_refused_file(
    config: Config,
    days: i64,
    cutoff: Timestamp,
    filename: Seq<char>,
    package: Seq<char>,
    version: Seq<char>,
    releases: JsonView,
    times: Seq<(Seq<char>, Timestamp)>,
)
    requires
        names::in_order(times),
    ensures
        ({
            let action = file_action(
                config,
                days,
                cutoff,
                filename,
                package,
                version,
                releases,
                times,
            );
            &&& names::lookup(times, version) is None ==> (action matches FileActionView::Answer(
                reply,
            ) && reply.status == 404)
            &&& names::lookup(times, version) is Some && (forall|other: Seq<char>|
                #[trigger] names::lookup(times, other) matches Some(t) ==> !t.le(cutoff)) ==> {
                &&& action matches FileActionView::Answer(reply)
                &&& reply.status == 403
                &&& reply.body == crate::reply::BodyView::Json(
                    denial(package, version, too_recent(days), None),
                )
                &&& reply.headers.contains(("X-Delay-Original-Version"@, version))
            }
        }),
{
    if names::lookup(times, version) is Some && (forall|other: Seq<char>|
        #[trigger] names::lookup(times, other) matches Some(t) ==> !t.le(cutoff)) {
        delay_check::law_denied(times, cutoff, version);
        delay_check::law_resolution_substitute(times, cutoff, version);
        let action = file_action(config, days, cutoff, filename, package, version, releases, times);
        assert(action->Answer_0.headers[0] == ("X-Delay-Original-Version"@, version));
    }
}

/// The releases and times that a file is judged by are those of the metadata, as long
/// as the version is listed with a time that can be read.
pub proof fn law_judged_by(
    metadata: JsonView,
    releases: JsonView,
    package: Seq<char>,
    version: Seq<char>,
    files: Seq<JsonView>,
    uploaded: Seq<char>,
)
    requires
        metadata.get("releases"@) == Some(releases),
        releases.get(version) == Some(JsonView::Array(files)),
        files.len() > 0,
        files[0].get("upload_time"@) == Some(JsonView::Str(uploaded)),
        delay_check::flexible_time(uploaded) is Some,
        release_times(releases) is Ok,
        delay_check::field_times(release_times(releases)->Ok_0) is Ok,
    ensures
        releases_or_reply(metadata, package, version) == Ok::<_, ReplyView>(
            (releases, delay_check::field_times(release_times(releases)->Ok_0)->Ok_0),
        ),
        info_times(metadata) == Some(delay_check::field_times(release_times(releases)->Ok_0)->Ok_0),
{
}

/// A file is never judged without its releases: metadata that lists none, or not the
/// version, or no time for it, is answered with an error.
pub proof fn law_not_judged(metadata: JsonView, package: Seq<char>, version: Seq<char>)
    ensures
        metadata.get("releases"@) is None ==> (releases_or_reply(metadata, package, version) matches
            Err(reply) && reply.status == 500),
        metadata.get("releases"@) matches Some(releases) ==> {
            &&& releases.get(version) is None ==> (releases_or_reply(
                metadata,
                package,
                version,
            ) matches Err(reply) && reply.status == 404)
            &&& releases_or_reply(metadata, package, version) matches Ok(found) ==> {
                &&& found.0 == releases
                &&& releases.get(version) matches Some(JsonView::Array(files))
                &&& files.len() > 0
                &&& files[0].get("upload_time"@) matches Some(JsonView::Str(t))
                &&& delay_check::flexible_time(t) is Some
            }
        },
{
}

/// A file of a list is left out exactly if its name names a version that is listed with
/// a time after the cutoff, be it a wheel or an archive.
pub proof fn law_listed_file_hidden(
    files: Seq<JsonView>,
    times: Seq<(Seq<char>, Timestamp)>,
    cutoff: Timestamp,
    file: JsonView,
    filename: Seq<char>,
    package: Seq<char>,
    version: Seq<char>,
    t: Timestamp,
)
    requires
        file.get("filename"@) == Some(JsonView::Str(filename)),
        file_parts(filename) == Some((package, version)),
        names::lookup(times, version) == Some(t),
        files.contains(file),
    ensures
        hide_files(files, times, cutoff).0.contains(file) <==> t.le(cutoff),
{
    law_young_files_hidden(files, times, cutoff, file);
}

/// A file of a list stays where its name cannot be read or names a version that is not
/// listed.
pub proof fn law_unknown_file_stays(
    files: Seq<JsonView>,
    times: Seq<(Seq<char>, Timestamp)>,
    cutoff: Timestamp,
    file: JsonView,
)
    requires
        files.contains(file),
        match file.get("filename"@) {
            Some(JsonView::Str(filename)) => match file_parts(filename) {
                Some(parts) => names::lookup(times, parts.1) is None,
                None => true,
            },
            _ => file_parts(Seq::empty()) is None,
        },
    ensures
        hide_files(files, times, cutoff).0.contains(file),
{
    law_young_files_hidden(files, times, cutoff, file);
}

/// Hiding files in two lists, one behind the other, is hiding them in each; a single
/// file stays with nothing reported, or goes and its version is reported.
pub proof fn law_hide_files_order(
    a: Seq<JsonView>,
    b: Seq<JsonView>,
    times: Seq<(Seq<char>, Timestamp)>,
    cutoff: Timestamp,
)
    ensures
        hide_files(a + b, times, cutoff).0 == hide_files(a, times, cutoff).0 + hide_files(
            b,
            times,
            cutoff,
        ).0,
        hide_files(a + b, times, cutoff).1 == hide_files(a, times, cutoff).1 + hide_files(
            b,
            times,
            cutoff,
        ).1,
    decreases b.len(),
{
    if b.len() == 0 {
        assert(a + b =~= a);
        assert(hide_files(a, times, cutoff).0 + hide_files(b, times, cutoff).0 =~= hide_files(
            a,
            times,
            cutoff,
        ).0);
        assert(hide_files(a, times, cutoff).1 + hide_files(b, times, cutoff).1 =~= hide_files(
            a,
            times,
            cutoff,
        ).1);
    } else {
        law_hide_files_order(a, b.drop_last(), times, cutoff);
        assert((a + b).drop_last() =~= a + b.drop_last());
        assert((a + b).last() == b.last());
        assert(hide_files(a + b, times, cutoff).0 =~= hide_files(a, times, cutoff).0 + hide_files(
            b,
            times,
            cutoff,
        ).0);
        assert(hide_files(a + b, times, cutoff).1 =~= hide_files(a, times, cutoff).1 + hide_files(
            b,
            times,
            cutoff,
        ).1);
    }
}

/// What is done with a single file of a list: where its name names a version that is
/// too young it goes, and that version is reported, or the one that the list gives for
/// it; else it stays.
pub proof fn law_hide_one_file(
    file: JsonView,
    times: Seq<(Seq<char>, Timestamp)>,
    cutoff: Timestamp,
    filename: Seq<char>,
    package: Seq<char>,
    version: Seq<char>,
    t: Timestamp,
)
    requires
        file.get("filename"@) == Some(JsonView::Str(filename)),
        file_parts(filename) == Some((package, version)),
        names::lookup(times, version) == Some(t),
    ensures
        t.le(cutoff) ==> hide_files(seq![file], times, cutoff) == (seq![file], Seq::<
            Seq<char>,
        >::empty()),
        !t.le(cutoff) ==> hide_files(seq![file], times, cutoff) == (
            Seq::<JsonView>::empty(),
            seq![
                match file.get("version"@) {
                    Some(JsonView::Str(v)) => v,
                    _ => version,
                },
            ],
        ),
{
    let one = seq![file];
    let none = one.drop_last();
    assert(none =~= Seq::empty());
    assert(hide_files(none, times, cutoff).0 =~= Seq::empty());
    assert(hide_files(none, times, cutoff).1 =~= Seq::empty());
    assert(hide_files(one, times, cutoff).0 =~= (if t.le(cutoff) {
        one
    } else {
        Seq::empty()
    }));
    if t.le(cutoff) {
        assert(hide_files(one, times, cutoff).1 =~= Seq::empty());
    } else {
        assert(hide_files(one, times, cutoff).1 =~= seq![
            match file.get("version"@) {
                Some(JsonView::Str(v)) => v,
                _ => version,
            },
        ]);
    }
}

/// A filtered list holds the files that are left and is otherwise unchanged.
pub proof fn law_filtered_list(
    list: JsonView,
    files: Seq<JsonView>,
    times: Seq<(Seq<char>, Timestamp)>,
    cutoff: Timestamp,
    key: Seq<char>,
)
    requires
        list matches JsonView::Object(m) && names::in_order(m),
        list.get("files"@) == Some(JsonView::Array(files)),
    ensures
        hide_in_list(list, times, cutoff).0.get("files"@) == Some(
            JsonView::Array(hide_files(files, times, cutoff).0),
        ),
        key != "files"@ ==> hide_in_list(list, times, cutoff).0.get(key) == list.get(key),
        hide_in_list(list, times, cutoff).1 == hide_files(files, times, cutoff).1,
{
    let kept = JsonView::Array(hide_files(files, times, cutoff).0);
    json::law_put_get(list, "files"@, kept, key);
}

/// Hiding links in two groups, one behind the other, is hiding the first and then, in
/// what is left of the page, the second; the versions are reported in that order.
pub proof fn law_hide_links_order(
    html: Seq<char>,
    a: Seq<Seq<Option<Seq<char>>>>,
    b: Seq<Seq<Option<Seq<char>>>>,
    times: Seq<(Seq<char>, Timestamp)>,
    cutoff: Timestamp,
)
    ensures
        ({
            let first = hide_links(html, a, times, cutoff);
            let second = hide_links(first.0, b, times, cutoff);
            &&& hide_links(html, a + b, times, cutoff).0 == second.0
            &&& hide_links(html, a + b, times, cutoff).1 == first.1 + second.1
        }),
    decreases b.len(),
{
    let first = hide_links(html, a, times, cutoff);
    let second = hide_links(first.0, b, times, cutoff);
    if b.len() == 0 {
        assert(a + b =~= a);
        assert(first.1 + second.1 =~= first.1);
    } else {
        law_hide_links_order(html, a, b.drop_last(), times, cutoff);
        assert((a + b).drop_last() =~= a + b.drop_last());
        assert((a + b).last() == b.last());
        assert(hide_links(html, a + b, times, cutoff).1 =~= first.1 + second.1);
    }
}

/// What is done with a single link of a page: where its label names a version that is
/// listed with a time after the cutoff, be it a wheel or an archive, the link goes from
/// the page and the version is reported; where the time is not after the cutoff the
/// page stays as it is and nothing is reported.
#[verifier::rlimit(40)]
pub proof fn law_hide_one_link(
    before: Seq<char>,
    behind: Seq<char>,
    link: Seq<Option<Seq<char>>>,
    whole: Seq<char>,
    label: Seq<char>,
    times: Seq<(Seq<char>, Timestamp)>,
    cutoff: Timestamp,
    package: Seq<char>,
    version: Seq<char>,
    t: Timestamp,
)
    requires
        link.len() >= 3,
        link[0] == Some(whole),
        link[2] == Some(label),
        whole.len() > 0,
        forall|i: int|
            0 <= i < before.len() ==> !#[trigger] text::occurs(
                before + whole + behind,
                whole,
                i,
            ),
        forall|i: int| 0 <= i < behind.len() ==> !#[trigger] text::occurs(behind, whole, i),
        file_parts(label) == Some((package, version)),
        names::lookup(times, version) == Some(t),
    ensures
        t.le(cutoff) ==> hide_links(before + whole + behind, seq![link], times, cutoff) == (
            before + whole + behind,
            Seq::<Seq<char>>::empty(),
        ),
        !t.le(cutoff) ==> hide_links(before + whole + behind, seq![link], times, cutoff) == (
            before + behind,
            seq![version],
        ),
{
    let one = seq![link];
    let html = before + whole + behind;
    assert(one.drop_last() =~= Seq::empty());
    assert(hide_links(html, one.drop_last(), times, cutoff).0 == html);
    assert(hide_links(html, one.drop_last(), times, cutoff).1 =~= Seq::empty());
    assert(one.last() == link);
    let empty = Seq::<char>::empty();
    text::law_replace(before, whole, behind, empty);
    text::law_replace_absent(behind, whole, empty);
    assert(before + empty + behind =~= before + behind);
    if !t.le(cutoff) {
        assert(hide_links(html, one, times, cutoff).1 =~= seq![version]);
    } else {
        assert(hide_links(html, one, times, cutoff).1 =~= Seq::empty());
    }
}

/// The versions that a page is warned of, over two lists of times one behind the other.
pub proof fn law_recent_order(
    a: Seq<(Seq<char>, Timestamp)>,
    b: Seq<(Seq<char>, Timestamp)>,
    cutoff: Timestamp,
)
    ensures
        recent(a + b, cutoff) == recent(a, cutoff) + recent(b, cutoff),
        a.len() == 1 ==> recent(a, cutoff) == (if a[0].1.le(cutoff) {
            Seq::empty()
        } else {
            seq![a[0].0]
        }),
    decreases b.len(),
{
    if a.len() == 1 {
        assert(recent(a.drop_last(), cutoff) =~= Seq::empty());
        assert(recent(a, cutoff) =~= (if a[0].1.le(cutoff) {
            Seq::empty()
        } else {
            seq![a[0].0]
        }));
    }
    if b.len() == 0 {
        assert(a + b =~= a);
        assert(recent(a, cutoff) + recent(b, cutoff) =~= recent(a, cutoff));
    } else {
        law_recent_order(a, b.drop_last(), cutoff);
        assert((a + b).drop_last() =~= a + b.drop_last());
        assert((a + b).last() == b.last());
        assert(recent(a + b, cutoff) =~= recent(a, cutoff) + recent(b, cutoff));
    }
}

/// In strict mode, where the times are known, the list is served with the young files
/// hidden, and the versions that were hidden are named in a header, if there are any.
pub proof fn law_strict_list(
    config: Config,
    cutoff: Timestamp,
    html: Seq<char>,
    info: JsonView,
    accept: Seq<char>,
    times: Seq<(Seq<char>, Timestamp)>,
)
    requires
        config.pypi_filter_mode matches Some(mode) && mode@ == "strict"@,
        info_times(info) == Some(times),
    ensures
        ({
            let reply = list_reply(config, cutoff, html, info, accept);
            let json = text::has_text(accept, "application/vnd.pypi.simple.v1+json"@);
            let filtered_list = hide_in_list(page_json(html, config.pypi_registry@), times, cutoff);
            let filtered_page = hide_links(
                html,
                pattern::all_matches(r#"<a[^>]+href="([^"]+)"[^>]*>([^<]+)</a>"#@, html),
                times,
                cutoff,
            );
            let hidden = if json {
                filtered_list.1
            } else {
                filtered_page.1
            };
            &&& reply.status == 200
            &&& reply.body == (if json {
                crate::reply::BodyView::Json(filtered_list.0)
            } else {
                crate::reply::BodyView::Text(filtered_page.0)
            })
            &&& reply.headers[0] == ("Content-Type"@, if json {
                "application/vnd.pypi.simple.v1+json"@
            } else {
                "text/html; charset=utf-8"@
            })
            &&& reply.headers.len() == (if hidden.len() > 0 {
                2int
            } else {
                1
            })
            &&& hidden.len() > 0 ==> reply.headers[1] == (
                "X-Delay-Hidden-Versions"@,
                text::join(hidden, ", "@),
            )
        }),
{
}

/// Else the list is served as it came, with a warning that names the young versions
/// where the times are known and there are any.
pub proof fn law_plain_list(
    config: Config,
    cutoff: Timestamp,
    html: Seq<char>,
    info: JsonView,
    accept: Seq<char>,
)
    requires
        info_times(info) is None || !(config.pypi_filter_mode matches Some(mode) && mode@
            == "strict"@),
    ensures
        ({
            let reply = list_reply(config, cutoff, html, info, accept);
            let json = text::has_text(accept, "application/vnd.pypi.simple.v1+json"@);
            let young = match info_times(info) {
                Some(times) => recent(times, cutoff),
                None => Seq::empty(),
            };
            &&& reply.status == 200
            &&& reply.body == (if json {
                crate::reply::BodyView::Json(page_json(html, config.pypi_registry@))
            } else {
                crate::reply::BodyView::Text(html)
            })
            &&& reply.headers.len() == 2
            &&& young.len() > 0 ==> reply.headers[0] == (
                "X-Delay-Warning"@,
                "Recent versions blocked by delay policy: "@ + text::join(young, ", "@),
            )
            &&& young.len() == 0 ==> reply.headers[0].0 == "X-Delay-Info"@
            &&& reply.headers[1] == ("Content-Type"@, if json {
                "application/vnd.pypi.simple.v1+json"@
            } else {
                "text/html; charset=utf-8"@
            })
        }),
{
}

/// The address of a link is its target without the fragment: as it is where it names a
/// protocol, else below the base address.
pub proof fn law_link_url(target: Seq<char>, fragment: Seq<char>, base_url: Seq<char>)
    requires
        !target.contains('#'),
    ensures
        "http"@.is_prefix_of(target) ==> link_url(target + seq!['#'] + fragment, base_url)
            == target && link_url(target, base_url) == target,
        !"http"@.is_prefix_of(target) ==> {
            &&& link_url(target + seq!['#'] + fragment, base_url) == base_url + "/"@
                + text::trim_start(target, '/')
            &&& link_url(target, base_url) == base_url + "/"@ + text::trim_start(target, '/')
        },
{
    text::law_cut(target, fragment, '#');
}

/// The checksums of a link are those that its fragment gives: each under the name of its
/// kind; a link without a fragment has none.
#[verifier::rlimit(40)]
pub proof fn law_link_hash(target: Seq<char>, kind: Seq<char>, hash: Seq<char>)
    requires
        !target.contains('#'),
        !kind.contains('='),
        !kind.contains('&'),
        !hash.contains('&'),
    ensures
        link_hashes(target + seq!['#'] + kind + seq!['='] + hash) == JsonView::object().put(
            kind,
            JsonView::Str(hash),
        ),
        link_hashes(target) == JsonView::object(),
{
    let fragment = kind + seq!['='] + hash;
    assert(target + seq!['#'] + kind + seq!['='] + hash =~= target + seq!['#'] + fragment);
    text::law_cut(target, fragment, '#');
    text::law_cut(kind, hash, '=');
    assert forall|i: int| 0 <= i < fragment.len() implies fragment[i] != '&' by {
        if i < kind.len() {
            assert(kind.contains(kind[i]));
            assert(fragment[i] == kind[i]);
        } else if i > kind.len() {
            assert(hash.contains(hash[i - kind.len() - 1]));
            assert(fragment[i] == hash[i - kind.len() - 1]);
        }
    }
    text::law_join_split(seq![fragment], '&');
    let one = seq![fragment];
    assert(text::join(one, seq!['&']) == fragment);
    assert(text::split(fragment, '&') == one);
    assert(one.drop_last() =~= Seq::empty());
    assert(hashes_of(one.drop_last()) =~= Seq::empty());
    assert(one.last() == fragment);
    assert(hashes_of(one) =~= names::put(Seq::empty(), kind, JsonView::Str(hash)));
}

/// The value of an attribute is what stands between the quotes behind the first
/// occurrence of its name.
pub proof fn law_attr_value(
    before: Seq<char>,
    name: Seq<char>,
    value: Seq<char>,
    behind: Seq<char>,
)
    requires
        !value.contains('"'),
        forall|i: int|
            0 <= i < before.len() ==> !#[trigger] text::occurs(
                before + (name + "=\""@) + (value + seq!['"'] + behind),
                name + "=\""@,
                i,
            ),
    ensures
        attr_value(before + (name + "=\""@) + (value + seq!['"'] + behind), name) == Some(value),
{
    let t = name + "=\""@;
    let rest = value + seq!['"'] + behind;
    let s = before + t + rest;
    let k = before.len() as int;
    assert(s.subrange(k, k + t.len()) =~= t);
    lemma_behind(s, t, k);
    assert(s.skip(k + t.len()) =~= rest);
    text::law_cut(value, behind, '"');
}

proof fn lemma_behind(s: Seq<char>, t: Seq<char>, k: int)
    requires
        text::occurs(s, t, k),
        forall|i: int| 0 <= i < k ==> !#[trigger] text::occurs(s, t, i),
    ensures
        behind(s, t) == Some(s.skip(k + t.len())),
    decreases k,
{
    if k == 0 {
        assert(t =~= s.subrange(0, t.len() as int));
        assert(t.is_prefix_of(s));
    } else {
        assert(!text::occurs(s, t, 0));
        assert(!t.is_prefix_of(s));
        let tail = s.skip(1);
        assert(tail.subrange(k - 1, k - 1 + t.len()) =~= s.subrange(k, k + t.len()));
        assert forall|i: int| 0 <= i < k - 1 implies !#[trigger] text::occurs(tail, t, i) by {
            assert(!text::occurs(s, t, i + 1));
            if text::occurs(tail, t, i) {
                assert(s.subrange(i + 1, i + 1 + t.len()) =~= tail.subrange(i, i + t.len()));
            }
        }
        lemma_behind(tail, t, k - 1);
        assert(tail.skip(k - 1 + t.len()) =~= s.skip(k + t.len()));
    }
}

/// A link becomes a file with the name, address, checksums, requirement and mark that
/// the link gives.
#[verifier::rlimit(40)]
pub proof fn law_link_entry(
    link: Seq<Option<Seq<char>>>,
    href: Seq<char>,
    attrs: Seq<char>,
    label: Seq<char>,
    base_url: Seq<char>,
)
    requires
        link.len() >= 4,
        link[1] == Some(href),
        link[2] == Some(attrs),
        link[3] == Some(label),
    ensures
        link_entry(link, base_url) matches Some(file) && {
            &&& file.get("filename"@) == Some(JsonView::Str(text::trimmed(label)))
            &&& file.get("url"@) == Some(JsonView::Str(link_url(href, base_url)))
            &&& file.get("hashes"@) == Some(link_hashes(href))
            &&& file.get("requires-python"@) == Some(
                match attr_value(attrs, "data-requires-python"@) {
                    Some(v) => JsonView::Str(unescaped(v)),
                    None => JsonView::Null,
                },
            )
            &&& file.get("yanked"@) == Some(JsonView::Bool(text::has_text(attrs, "data-yanked"@)))
        },
{
    reveal_strlit("filename");
    reveal_strlit("url");
    reveal_strlit("hashes");
    reveal_strlit("requires-python");
    reveal_strlit("yanked");
    assert("filename"@.len() == 8 && "url"@.len() == 3 && "requires-python"@.len() == 15);
    assert("hashes"@[0] == 'h' && "yanked"@[0] == 'y');
    assert("hashes"@.len() == 6 && "yanked"@.len() == 6);
    let a = JsonView::object();
    let name = JsonView::Str(text::trimmed(label));
    let url = JsonView::Str(link_url(href, base_url));
    let hashes = link_hashes(href);
    let python = requires_python(attrs);
    let yanked = JsonView::Bool(text::has_text(attrs, "data-yanked"@));
    let b = a.put("filename"@, name);
    let c = b.put("url"@, url);
    let d = c.put("hashes"@, hashes);
    let e = d.put("requires-python"@, python);
    json::law_put_get(a, "filename"@, name, "url"@);
    json::law_put_get(b, "url"@, url, "filename"@);
    json::law_put_get(c, "hashes"@, hashes, "filename"@);
    json::law_put_get(c, "hashes"@, hashes, "url"@);
    json::law_put_get(d, "requires-python"@, python, "filename"@);
    json::law_put_get(d, "requires-python"@, python, "url"@);
    json::law_put_get(d, "requires-python"@, python, "hashes"@);
    json::law_put_get(e, "yanked"@, yanked, "filename"@);
    json::law_put_get(e, "yanked"@, yanked, "url"@);
    json::law_put_get(e, "yanked"@, yanked, "hashes"@);
    json::law_put_get(e, "yanked"@, yanked, "requires-python"@);
}

/// The files of two groups of links, one behind the other, are those of the one and
/// behind them those of the other; a link with all its groups gives one file.
pub proof fn law_link_entries(
    a: Seq<Seq<Option<Seq<char>>>>,
    b: Seq<Seq<Option<Seq<char>>>>,
    base_url: Seq<char>,
)
    ensures
        link_entries(a + b, base_url) == link_entries(a, base_url) + link_entries(b, base_url),
        a.len() == 1 && link_entry(a[0], base_url) is Some ==> link_entries(a, base_url) == seq![
            link_entry(a[0], base_url)->0,
        ],
    decreases b.len(),
{
    if a.len() == 1 && link_entry(a[0], base_url) is Some {
        assert(link_entries(a.drop_last(), base_url) =~= Seq::empty());
        assert(link_entries(a, base_url) =~= seq![link_entry(a[0], base_url)->0]);
    }
    if b.len() == 0 {
        assert(a + b =~= a);
        assert(link_entries(a, base_url) + link_entries(b, base_url) =~= link_entries(a, base_url));
    } else {
        law_link_entries(a, b.drop_last(), base_url);
        assert((a + b).drop_last() =~= a + b.drop_last());
        assert((a + b).last() == b.last());
        assert(link_entries(a + b, base_url) =~= link_entries(a, base_url) + link_entries(
            b,
            base_url,
        ));
    }
}

/// A list in JSON names its package and holds the files of all links.
pub proof fn law_list_members(
    title: Option<Seq<Option<Seq<char>>>>,
    links: Seq<Seq<Option<Seq<char>>>>,
    base_url: Seq<char>,
)
    ensures
        ({
            let list = list_json(title, links, base_url);
            &&& list matches JsonView::Object(m)
            &&& names::in_order(m)
            &&& list.get("name"@) == Some(
                JsonView::Str(
                    match title {
                        Some(groups) => match pattern::group(groups, 1) {
                            Some(name) => text::trimmed(name),
                            None => Seq::empty(),
                        },
                        None => Seq::empty(),
                    },
                ),
            )
            &&& list.get("files"@) == Some(
                JsonView::Array(link_entries(links, text::trim_end(base_url, '/'))),
            )
        }),
{
    reveal_strlit("meta");
    reveal_strlit("name");
    reveal_strlit("files");
    assert("files"@.len() == 5 && "name"@.len() == 4 && "meta"@.len() == 4);
    assert("meta"@[0] == 'm' && "name"@[0] == 'n');
    let meta = JsonView::object().put("api-version"@, JsonView::Str("1.0"@));
    let name = JsonView::Str(title_name(title));
    let files = JsonView::Array(link_entries(links, text::trim_end(base_url, '/')));
    let a = JsonView::object();
    let b = a.put("meta"@, meta);
    let c = b.put("name"@, name);
    json::law_put_get(a, "meta"@, meta, "name"@);
    json::law_put_get(b, "name"@, name, "meta"@);
    json::law_put_get(c, "files"@, files, "name"@);
}

/// In a requirement the signs that are written as entities are put back, and a text
/// without an ampersand stays as it is.
#[verifier::rlimit(40)]
pub proof fn law_unescaped(before: Seq<char>, behind: Seq<char>)
    requires
        !before.contains('&'),
        !behind.contains('&'),
    ensures
        unescaped(before) == before,
        unescaped(before + "&gt;"@ + behind) == before + ">"@ + behind,
        unescaped(before + "&lt;"@ + behind) == before + "<"@ + behind,
{
    reveal_strlit("&gt;");
    reveal_strlit("&lt;");
    reveal_strlit(">");
    reveal_strlit("<");
    let gt = "&gt;"@;
    let lt = "&lt;"@;
    lemma_no_entity(before, gt);
    lemma_no_entity(before, lt);
    lemma_no_entity(behind, gt);
    lemma_no_entity(behind, lt);
    text::law_replace_absent(before, gt, ">"@);
    text::law_replace_absent(before, lt, "<"@);
    text::law_replace_absent(behind, gt, ">"@);
    text::law_replace_absent(behind, lt, "<"@);
    let s = before + gt + behind;
    assert forall|i: int| 0 <= i < before.len() implies !#[trigger] text::occurs(s, gt, i) by {
        if text::occurs(s, gt, i) {
            assert(s.subrange(i, i + 4)[0] == s[i]);
            assert(before.contains(before[i]));
        }
    }
    text::law_replace(before, gt, behind, ">"@);
    let plain = before + ">"@ + behind;
    assert forall|i: int| 0 <= i < plain.len() implies plain[i] != '&' by {
        if i < before.len() {
            assert(before.contains(before[i]));
        } else if i > before.len() {
            assert(behind.contains(behind[i - before.len() - 1]));
        }
    }
    lemma_no_entity(plain, lt);
    text::law_replace_absent(plain, lt, "<"@);
    let u = before + lt + behind;
    assert forall|i: int| 0 <= i < u.len() implies !#[trigger] text::occurs(u, gt, i) by {
        if text::occurs(u, gt, i) {
            assert(u.subrange(i, i + 4)[0] == u[i] && u.subrange(i, i + 4)[1] == u[i + 1]);
            assert(gt[0] == '&' && gt[1] == 'g');
            if i < before.len() {
                assert(before.contains(before[i]));
            } else if i >= before.len() + 4 {
                assert(behind.contains(behind[i - before.len() - 4]));
            }
        }
    }
    text::law_replace_absent(u, gt, ">"@);
    assert forall|i: int| 0 <= i < before.len() implies !#[trigger] text::occurs(u, lt, i) by {
        if text::occurs(u, lt, i) {
            assert(u.subrange(i, i + 4)[0] == u[i]);
            assert(before.contains(before[i]));
        }
    }
    text::law_replace(before, lt, behind, "<"@);
}

proof fn lemma_no_entity(s: Seq<char>, entity: Seq<char>)
    requires
        !s.contains('&'),
        entity.len() > 0,
        entity[0] == '&',
    ensures
        forall|i: int| 0 <= i < s.len() ==> !#[trigger] text::occurs(s, entity, i),
{
    assert forall|i: int| 0 <= i < s.len() implies !#[trigger] text::occurs(s, entity, i) by {
        if text::occurs(s, entity, i) {
            assert(s.subrange(i, i + entity.len())[0] == s[i]);
            assert(s.contains(s[i]));
        }
    }
}

/// An error of the upstream server is passed on where the client can act on it, and is
/// a bad gateway else; the body names both statuses and the context.
pub proof fn law_mapped_status(status: u16, context: Seq<char>, id: Seq<char>, time: Seq<char>)
    ensures
        ({
            let reply = upstream_reply(status, context, id, time);
            &&& reply.status == (if status == 400 || status == 404 || status == 429 || status
                == 503 || status == 504 {
                status
            } else {
                502u16
            })
            &&& reply.headers.contains(("Retry-After"@, "60"@)) <==> status == 429
        }),
{
    reveal_strlit("Retry-After");
    reveal_strlit("Content-Type");
    assert("Retry-After"@.len() == 11 && "Content-Type"@.len() == 12);
    let reply = upstream_reply(status, context, id, time);
    assert(reply.headers[0] == ("Content-Type"@, "application/json"@));
    if status == 429 {
        assert(reply.headers[1] == ("Retry-After"@, "60"@));
    }
}

/// What is said of an error upstream gives the message, both statuses, the context, the
/// name of the request and the moment.
#[verifier::rlimit(40)]
pub proof fn law_error_members(status: u16, context: Seq<char>, id: Seq<char>, time: Seq<char>)
    ensures
        ({
            let reply = upstream_reply(status, context, id, time);
            &&& reply.body matches crate::reply::BodyView::Json(body)
            &&& body.get("status"@) == Some(JsonView::Number(text::decimal(reply.status as int)))
            &&& body.get("upstream_status"@) == Some(
                JsonView::Number(text::decimal(status as int)),
            )
            &&& body.get("context"@) == Some(JsonView::Str(context))
            &&& body.get("request_id"@) == Some(JsonView::Str(id))
            &&& body.get("timestamp"@) == Some(JsonView::Str(time))
            &&& body.get("error"@) matches Some(JsonView::Str(message))
            &&& status == 400 ==> message == "Bad request to upstream: "@ + context
            &&& status == 404 ==> message == "Resource not found on upstream: "@ + context
            &&& status == 401 || status == 403 ==> message == "Upstream authentication failed"@
            &&& status == 429 ==> message == "Upstream rate limited, please retry later"@
            &&& (status < 400 || status > 504 || (404 < status < 429) || (429 < status < 500))
                ==> message == "Unexpected upstream error: "@ + text::decimal(status as int)
        }),
{
    reveal_strlit("error");
    reveal_strlit("status");
    reveal_strlit("upstream_status");
    reveal_strlit("context");
    reveal_strlit("request_id");
    reveal_strlit("timestamp");
    assert("error"@.len() == 5 && "status"@.len() == 6 && "upstream_status"@.len() == 15);
    assert("context"@.len() == 7 && "request_id"@.len() == 10 && "timestamp"@.len() == 9);
    json::lemma_puts();
}

/// The name of a request is made of the seconds and the nanoseconds of its moment.
pub proof fn law_request_name(now: Timestamp)
    ensures
        now.secs >= 0 ==> request_name(now) == text::numeral(now.secs as nat, 16) + text::numeral(
            now.nanos as nat,
            16,
        ),
        now.secs < 0 ==> request_name(now) == text::numeral(0, 16) + text::numeral(0, 16),
{
}

/// What is answered where metadata cannot be had: a bad gateway where upstream was not
/// reached, what upstream said where it refused, and else an error of the server.
pub proof fn law_release_error_status(
    package: Seq<char>,
    fetched: MetadataFetch,
    reply: ReplyView,
)
    requires
        is_release_error(package, fetched, reply),
    ensures
        match fetched.status() {
            None => reply.status == 502,
            Some(status) => if 200 <= status < 300 {
                reply.status == 500
            } else {
                reply.status == (if status == 400 || status == 404 || status == 429 || status
                    == 503 || status == 504 {
                    status
                } else {
                    502
                })
            },
        },
        fetched matches MetadataFetch::Parsed { status, .. } ==> !(200 <= status < 300),
{
}

/// What is answered where a list of files cannot be had: a bad gateway where one of the
/// two was not reached, what upstream said of the page where it refused, and else an
/// error of the server.
pub proof fn law_list_error_status(
    package: Seq<char>,
    page: PageFetch,
    extra: ExtraFetch,
    reply: ReplyView,
)
    requires
        is_list_error(package, page, extra, reply),
    ensures
        page is NotSent || page is NotAnswered || extra is NotSent || extra is NotAnswered
            ==> reply.status == 502,
        extra is Answered ==> match page {
            PageFetch::Unreadable { status, .. } | PageFetch::Read { status, .. } => reply.status
                == (if 200 <= status < 300 {
                500
            } else if status == 400 || status == 404 || status == 429 || status == 503 || status
                == 504 {
                status
            } else {
                502
            }),
            _ => true,
        },
        !(page matches PageFetch::Read { status, .. } && 200 <= status < 300 && extra is Answered),
{
}

/// The metadata that goes with a list is what was answered with success, and else none.
pub proof fn law_extra_value(status: u16, value: Option<Json>)
    ensures
        extra_value(ExtraFetch::Answered { status, value }) == (if 200 <= status < 300
            && value is Some {
            value->0@
        } else {
            JsonView::Null
        }),
{
}

/// Each part of a fragment with an equals sign is a checksum under its kind; the last one
/// of a kind counts, and a part without the sign is none.
pub proof fn law_next_hash(
    parts: Seq<Seq<char>>,
    kind: Seq<char>,
    hash: Seq<char>,
    other: Seq<char>,
)
    requires
        !kind.contains('='),
    ensures
        names::in_order(hashes_of(parts)),
        names::lookup(hashes_of(parts.push(kind + seq!['='] + hash)), kind) == Some(
            JsonView::Str(hash),
        ),
        other != kind ==> names::lookup(hashes_of(parts.push(kind + seq!['='] + hash)), other)
            == names::lookup(hashes_of(parts), other),
        hashes_of(parts.push(kind)) == hashes_of(parts),
        parts.len() == 0 ==> hashes_of(parts).len() == 0,
    decreases parts.len(),
{
    lemma_hashes_order(parts);
    text::law_cut(kind, hash, '=');
    assert(parts.push(kind + seq!['='] + hash).drop_last() =~= parts);
    assert(parts.push(kind).drop_last() =~= parts);
    names::lemma_put_lookup(hashes_of(parts), kind, JsonView::Str(hash), kind);
    names::lemma_put_lookup(hashes_of(parts), kind, JsonView::Str(hash), other);
}

proof fn lemma_hashes_order(parts: Seq<Seq<char>>)
    ensures
        names::in_order(hashes_of(parts)),
    decreases parts.len(),
{
    if parts.len() > 0 {
        lemma_hashes_order(parts.drop_last());
        if text::cut(parts.last(), '=') is Some {
            let (kind, hash) = text::cut(parts.last(), '=')->0;
            names::lemma_put_order(hashes_of(parts.drop_last()), kind, JsonView::Str(hash));
        }
    }
}

/// The checksums of a link are those of the parts of its fragment, whatever their number.
pub proof fn law_fragment_parts(target: Seq<char>, parts: Seq<Seq<char>>)
    requires
        !target.contains('#'),
        parts.len() > 0,
        forall|i: int| 0 <= i < parts.len() ==> !(#[trigger] parts[i]).contains('&'),
    ensures
        link_hashes(target + seq!['#'] + text::join(parts, seq!['&'])) == JsonView::Object(
            hashes_of(parts),
        ),
{
    text::law_cut(target, text::join(parts, seq!['&']), '#');
    text::law_join_split(parts, '&');
}

/// An attribute that does not occur has no value.
pub proof fn law_attr_absent(attrs: Seq<char>, name: Seq<char>)
    requires
        forall|i: int| 0 <= i < attrs.len() ==> !#[trigger] text::occurs(attrs, name + "=\""@, i),
    ensures
        attr_value(attrs, name) is None,
{
    reveal_strlit("=\"");
    lemma_not_behind(attrs, name + "=\""@);
}

proof fn lemma_not_behind(s: Seq<char>, t: Seq<char>)
    requires
        t.len() > 0,
        forall|i: int| 0 <= i < s.len() ==> !#[trigger] text::occurs(s, t, i),
    ensures
        behind(s, t) is None,
    decreases s.len(),
{
    if s.len() > 0 {
        assert(!text::occurs(s, t, 0));
        assert(!t.is_prefix_of(s));
        let tail = s.skip(1);
        assert forall|i: int| 0 <= i < tail.len() implies !#[trigger] text::occurs(tail, t, i) by {
            assert(!text::occurs(s, t, i + 1));
            if text::occurs(tail, t, i) {
                assert(s.subrange(i + 1, i + 1 + t.len()) =~= tail.subrange(i, i + t.len()));
            }
        }
        lemma_not_behind(tail, t);
    }
}

proof fn lemma_replace_behind(front: Seq<char>, rest: Seq<char>, entity: Seq<char>, to: Seq<char>)
    requires
        !front.contains('&'),
        entity.len() > 0,
        entity[0] == '&',
    ensures
        text::replace(front + rest, entity, to) == front + text::replace(rest, entity, to),
    decreases front.len(),
{
    if front.len() == 0 {
        assert(front + rest =~= rest);
        assert(front + text::replace(rest, entity, to) =~= text::replace(rest, entity, to));
    } else {
        let s = front + rest;
        assert(front.contains(front[0]));
        assert(s[0] == front[0]);
        assert(!entity.is_prefix_of(s));
        let tail = front.skip(1);
        assert forall|i: int| 0 <= i < tail.len() implies tail[i] != '&' by {
            assert(front.contains(front[i + 1]));
        }
        assert(s.skip(1) =~= tail + rest);
        lemma_replace_behind(tail, rest, entity, to);
        assert(seq![s[0]] + (tail + text::replace(rest, entity, to)) =~= front + text::replace(
            rest,
            entity,
            to,
        ));
    }
}

/// Every sign of a requirement that is written as an entity is put back, wherever and
/// however often it stands.
#[verifier::rlimit(40)]
pub proof fn law_unescaped_all(before: Seq<char>, rest: Seq<char>)
    requires
        !before.contains('&'),
    ensures
        unescaped(before + "&gt;"@ + rest) == before + ">"@ + unescaped(rest),
        unescaped(before + rest) == before + unescaped(rest),
{
    reveal_strlit("&gt;");
    reveal_strlit("&lt;");
    reveal_strlit(">");
    reveal_strlit("<");
    let gt = "&gt;"@;
    let lt = "&lt;"@;
    lemma_replace_behind(before, rest, gt, ">"@);
    lemma_replace_behind(before, text::replace(rest, gt, ">"@), lt, "<"@);
    let s = before + gt + rest;
    assert forall|i: int| 0 <= i < before.len() implies !#[trigger] text::occurs(s, gt, i) by {
        if text::occurs(s, gt, i) {
            assert(s.subrange(i, i + 4)[0] == s[i]);
            assert(before.contains(before[i]));
        }
    }
    text::law_replace(before, gt, rest, ">"@);
    let front = before + ">"@;
    assert forall|i: int| 0 <= i < front.len() implies front[i] != '&' by {
        if i < before.len() {
            assert(before.contains(before[i]));
        }
    }
    lemma_replace_behind(front, text::replace(rest, gt, ">"@), lt, "<"@);
}

/// A page is read as a list by its title and its links.
pub proof fn law_page_json(html: Seq<char>, base_url: Seq<char>)
    ensures
        ({
            let list = page_json(html, base_url);
            let title = pattern::first_match(
                r#"<title>\s*Links for\s+(.*?)\s*</title>"#@,
                html,
            );
            let links = pattern::all_matches(
                r#"<a[^>]+href="([^"]+)"([^>]*)>([^<]+)</a>"#@,
                html,
            );
            &&& list == list_json(title, links, base_url)
            &&& list.get("files"@) == Some(
                JsonView::Array(link_entries(links, text::trim_end(base_url, '/'))),
            )
            &&& (title matches Some(groups) && groups.len() >= 2) ==> (title->0[1] matches Some(
                name,
            ) ==> list.get("name"@) == Some(JsonView::Str(text::trimmed(name))))
        }),
{
    let title = pattern::first_match(r#"<title>\s*Links for\s+(.*?)\s*</title>"#@, html);
    let links = pattern::all_matches(r#"<a[^>]+href="([^"]+)"([^>]*)>([^<]+)</a>"#@, html);
    law_list_members(title, links, base_url);
}

/// The other entity is put back wherever and however often it stands, too.
#[verifier::rlimit(40)]
pub proof fn law_unescaped_less(before: Seq<char>, rest: Seq<char>)
    requires
        !before.contains('&'),
    ensures
        unescaped(before + "&lt;"@ + rest) == before + "<"@ + unescaped(rest),
{
    reveal_strlit("&gt;");
    reveal_strlit("&lt;");
    reveal_strlit(">");
    reveal_strlit("<");
    let gt = "&gt;"@;
    let lt = "&lt;"@;
    let s = lt + rest;
    let left = text::replace(rest, gt, ">"@);
    assert(!gt.is_prefix_of(s)) by {
        assert(s[1] == 'l' && gt[1] == 'g');
    }
    let tail = seq!['l', 't', ';'];
    assert(s.skip(1) =~= tail + rest);
    assert(!tail.contains('&'));
    lemma_replace_behind(tail, rest, gt, ">"@);
    assert(seq![s[0]] + (tail + left) =~= lt + left);
    assert(text::replace(s, gt, ">"@) =~= lt + left);
    assert(before + lt + rest =~= before + s);
    lemma_replace_behind(before, s, gt, ">"@);
    let t = before + lt + left;
    assert(before + (lt + left) =~= t);
    assert forall|i: int| 0 <= i < before.len() implies !#[trigger] text::occurs(t, lt, i) by {
        if text::occurs(t, lt, i) {
            assert(t.subrange(i, i + 4)[0] == t[i]);
            assert(before.contains(before[i]));
        }
    }
    text::law_replace(before, lt, left, "<"@);
}

/// A link that is hidden goes from the page wherever it stands there.
pub proof fn law_hide_link_everywhere(
    html: Seq<char>,
    link: Seq<Option<Seq<char>>>,
    whole: Seq<char>,
    label: Seq<char>,
    times: Seq<(Seq<char>, Timestamp)>,
    cutoff: Timestamp,
    package: Seq<char>,
    version: Seq<char>,
)
    requires
        link.len() >= 3,
        link[0] == Some(whole),
        link[2] == Some(label),
        file_parts(label) == Some((package, version)),
        names::lookup(times, version) matches Some(t) && !t.le(cutoff),
    ensures
        hide_links(html, seq![link], times, cutoff).0 == text::replace(html, whole, Seq::empty()),
        hide_links(html, seq![link], times, cutoff).1 == seq![version],
{
    let one = seq![link];
    assert(one.drop_last() =~= Seq::empty());
    assert(hide_links(html, one.drop_last(), times, cutoff).0 == html);
    assert(hide_links(html, one.drop_last(), times, cutoff).1 =~= Seq::empty());
    assert(one.last() == link);
    assert(hide_links(html, one, times, cutoff).1 =~= seq![version]);
}

/// A link whose label cannot be read, or names a version that is not listed, stays.
pub proof fn law_unknown_link_stays(
    html: Seq<char>,
    link: Seq<Option<Seq<char>>>,
    times: Seq<(Seq<char>, Timestamp)>,
    cutoff: Timestamp,
)
    requires
        link.len() < 3 || match link[2] {
            Some(label) => match file_parts(label) {
                Some(parts) => names::lookup(times, parts.1) is None,
                None => true,
            },
            None => true,
        },
    ensures
        hide_links(html, seq![link], times, cutoff).0 == html,
        hide_links(html, seq![link], times, cutoff).1.len() == 0,
{
    let one = seq![link];
    assert(one.drop_last() =~= Seq::empty());
    assert(hide_links(html, one.drop_last(), times, cutoff).0 == html);
    assert(hide_links(html, one.drop_last(), times, cutoff).1 =~= Seq::empty());
    assert(one.last() == link);
}

/// A list without files is left as it is, and a link without all of its parts is no file.
pub proof fn law_nothing_listed(
    list: JsonView,
    times: Seq<(Seq<char>, Timestamp)>,
    cutoff: Timestamp,
    link: Seq<Option<Seq<char>>>,
    base_url: Seq<char>,
)
    ensures
        !(list.get("files"@) matches Some(JsonView::Array(_))) ==> hide_in_list(
            list,
            times,
            cutoff,
        ).0 == list && hide_in_list(list, times, cutoff).1.len() == 0,
        link.len() < 4 || link[1] is None || link[2] is None || link[3] is None ==> link_entry(
            link,
            base_url,
        ) is None,
{
}

/// A file that is old enough but that its release does not list by its name is fetched
/// from the first file of the release, or from below the download base where there is
/// none, and is held to no checksum.
pub proof fn law_served_unlisted(
    config: Config,
    days: i64,
    cutoff: Timestamp,
    filename: Seq<char>,
    package: Seq<char>,
    version: Seq<char>,
    releases: JsonView,
    times: Seq<(Seq<char>, Timestamp)>,
    files: Seq<JsonView>,
)
    requires
        names::lookup(times, version) matches Some(t) && t.le(cutoff),
        forall|i: int|
            0 <= i < files.len() ==> (#[trigger] files[i]).get("filename"@) != Some(
                JsonView::Str(filename),
            ),
    ensures
        ({
            let action = file_action(
                config,
                days,
                cutoff,
                filename,
                package,
                version,
                releases,
                times,
            );
            let base = config.pypi_download_base@ + "/"@ + filename;
            &&& releases.get(version) == Some(JsonView::Array(files)) ==> action == (
            FileActionView::Fetch {
                url: if files.len() > 0 {
                    match files[0].get("url"@) {
                        Some(JsonView::Str(url)) => url,
                        _ => base,
                    }
                } else {
                    base
                },
                headers: Seq::empty(),
            })
            &&& !(releases.get(version) matches Some(JsonView::Array(_))) ==> action == (
            FileActionView::Fetch { url: base, headers: Seq::empty() })
        }),
{
    if releases.get(version) == Some(JsonView::Array(files)) {
        crate::pypi_handler::law_release_file(
            releases,
            version,
            files,
            files.len() as int,
            filename,
        );
    } else if !(releases.get(version) matches Some(JsonView::Array(_))) {
        crate::pypi_handler::law_no_release(releases, version, filename);
    }
}

/// What is answered where a file cannot be judged: that its version was not found, where
/// the releases are listed without it, and else an error of the server.
pub proof fn law_not_judged_status(metadata: JsonView, package: Seq<char>, version: Seq<char>)
    ensures
        releases_or_reply(metadata, package, version) matches Err(reply) ==> reply.status == (
        match metadata.get("releases"@) {
            Some(releases) => if releases.get(version) is None {
                404u16
            } else {
                500
            },
            None => 500,
        }),
        releases_or_reply(metadata, package, version) matches Err(reply) ==> reply.headers.len()
            == 0,
{
}

/// The times that a list is filtered by are those of the releases, and there are none
/// where those cannot be read.
pub proof fn law_info_times(info: JsonView, releases: JsonView)
    ensures
        info.get("releases"@) is None ==> info_times(info) is None,
        info.get("releases"@) == Some(releases) && release_times(releases) is Err ==> info_times(
            info,
        ) is None,
        info.get("releases"@) == Some(releases) && release_times(releases) is Ok ==> info_times(
            info,
        ) == (match delay_check::field_times(release_times(releases)->Ok_0) {
            Ok(times) => Some(times),
            Err(_) => None,
        }),
{
}

/// A refusal upstream is passed on with the package in its context.
pub proof fn law_error_context(package: Seq<char>, fetched: MetadataFetch, reply: ReplyView)
    requires
        is_release_error(package, fetched, reply),
        fetched.status() matches Some(status) && !(200 <= status < 300),
    ensures
        reply.body matches crate::reply::BodyView::Json(body) && body.get("context"@) == Some(
            JsonView::Str("package="@ + package),
        ),
{
    let (named, dated): (Timestamp, Timestamp) = choose|named: Timestamp, dated: Timestamp|
        named.is_date() && named.nanos < 1_000_000_000 && dated.is_date() && reply
            == upstream_reply(
            fetched.status()->0,
            package_context(package),
            #[trigger] request_name(named),
            #[trigger] timestamp::rfc3339_text(dated.secs, dated.nanos),
        );
    law_error_members(
        fetched.status()->0,
        package_context(package),
        request_name(named),
        timestamp::rfc3339_text(dated.secs, dated.nanos),
    );
}

/// A refusal of the page of a package is passed on with the package in its context.
pub proof fn law_list_error_context(
    package: Seq<char>,
    status: u16,
    body: String,
    extra: ExtraFetch,
    reply: ReplyView,
)
    requires
        extra is Answered,
        is_list_error(package, PageFetch::Read { status, body }, extra, reply),
    ensures
        reply.body matches crate::reply::BodyView::Json(said) && said.get("context"@) == Some(
            JsonView::Str("package list (parallel), package="@ + package),
        ),
{
    let (named, dated): (Timestamp, Timestamp) = choose|named: Timestamp, dated: Timestamp|
        named.is_date() && named.nanos < 1_000_000_000 && dated.is_date() && reply
            == upstream_reply(
            status,
            list_context(package),
            #[trigger] request_name(named),
            #[trigger] timestamp::rfc3339_text(dated.secs, dated.nanos),
        );
    law_error_members(
        status,
        list_context(package),
        request_name(named),
        timestamp::rfc3339_text(dated.secs, dated.nanos),
    );
}

/// What is said where metadata or a page could not be had names the step and the error.
pub proof fn law_fetch_messages(
    package: Seq<char>,
    status: u16,
    error: String,
    extra: ExtraFetch,
    reply: ReplyView,
)
    requires
        200 <= status < 300,
    ensures
        is_release_error(package, MetadataFetch::NotSent(error), reply) <==> reply
            == ReplyView::text(502, "Failed to create PyPI request: "@ + error@),
        is_release_error(package, MetadataFetch::NotAnswered(error), reply) <==> reply
            == ReplyView::text(502, "Failed to connect to PyPI JSON API: "@ + error@),
        is_release_error(package, MetadataFetch::Unreadable { status, error }, reply) <==> reply
            == ReplyView::text(500, "Failed to read PyPI JSON API response: "@ + error@),
        is_release_error(package, MetadataFetch::Malformed { status, error }, reply) <==> reply
            == ReplyView::text(500, "Failed to parse PyPI JSON API response: "@ + error@),
        is_list_error(package, PageFetch::NotSent(error), extra, reply) <==> reply
            == ReplyView::text(502, "Failed to create PyPI simple request: "@ + error@),
        extra is Answered ==> (is_list_error(
            package,
            PageFetch::NotAnswered(error),
            extra,
            reply,
        ) <==> reply == ReplyView::text(502, "Simple API fetch failed: "@ + error@)),
        extra is Answered ==> (is_list_error(
            package,
            PageFetch::Unreadable { status, error },
            extra,
            reply,
        ) <==> reply == ReplyView::text(500, "Failed to read simple API response: "@ + error@)),
{
}

/// Where there is nothing to warn of, a list says where the delay is enforced.
pub proof fn law_list_info(times: Seq<(Seq<char>, Timestamp)>, cutoff: Timestamp)
    ensures
        warning(None, cutoff) == (
            "X-Delay-Info"@,
            "Package list served; use download endpoint for delay enforcement"@,
        ),
        recent(times, cutoff).len() == 0 ==> warning(Some(times), cutoff) == (
            "X-Delay-Info"@,
            "Package list served; use download endpoint for delay enforcement"@,
        ),
        recent(times, cutoff).len() > 0 ==> warning(Some(times), cutoff) == (
            "X-Delay-Warning"@,
            "Recent versions blocked by delay policy: "@ + text::join(
                recent(times, cutoff),
                ", "@,
            ),
        ),
{
}

/// What is said of a file whose version is not listed names both, and a refusal gives its
/// reason in a header.
pub proof fn law_file_messages(
    config: Config,
    days: i64,
    cutoff: Timestamp,
    filename: Seq<char>,
    package: Seq<char>,
    version: Seq<char>,
    releases: JsonView,
    times: Seq<(Seq<char>, Timestamp)>,
)
    ensures
        ({
            let action = file_action(
                config,
                days,
                cutoff,
                filename,
                package,
                version,
                releases,
                times,
            );
            &&& names::lookup(times, version) is None ==> action == FileActionView::Answer(
                ReplyView::text(
                    404,
                    "Version not found in package releases: package="@ + package + ", version="@
                        + version,
                ),
            )
            &&& action matches FileActionView::Fetch { headers, .. } ==> (headers.len() > 0
                ==> headers.len() == 3 && headers[2] == (
                "X-Delay-Reason"@,
                "Version too recent, auto-downloaded for security"@,
            ))
            &&& action matches FileActionView::Answer(reply) ==> (reply.status == 403
                ==> reply.headers == seq![
                ("X-Delay-Original-Version"@, version),
                ("X-Delay-Reason"@, "Version published too recently, below delay threshold"@),
            ])
        }),
{
    let action = file_action(config, days, cutoff, filename, package, version, releases, times);
    if action is Answer && action->Answer_0.status == 403 {
        assert(action->Answer_0.headers =~= seq![
            ("X-Delay-Original-Version"@, version),
            ("X-Delay-Reason"@, "Version published too recently, below delay threshold"@),
        ]);
    }
}

} // verus!
