//! Go modules: paths, pseudo-versions, and the answers of the module endpoints.

use vstd::prelude::*;
use vstd::string::{StrSliceExecFns, StringExecFns};

use crate::config::Config;
use crate::delay_check::{CheckView, DelayChecker, VersionCheckResult};
use crate::delay_logger::{self, DelayLogEntry, DelayLogger, LogView, PackageType};
use crate::fetch;
use crate::json::{Json, JsonView};
use crate::pypi_handler::{too_recent, too_recent_text};
use crate::reply::{Body, Reply, ReplyView};
use crate::text;
use crate::timestamp::{self, Timestamp};

verus! {

/// What may be asked of a module.
#[derive(Debug, Clone, Copy, PartialEq, Eq, Structural)]
pub enum GomodEndpoint {
    List,
    Latest,
    Info,
    Mod,
    Zip,
}

impl GomodEndpoint {
    /// How the path of the endpoint ends.
    pub open spec fn ending(self) -> Seq<char> {
        match self {
            GomodEndpoint::List => "list"@,
            GomodEndpoint::Latest => "latest"@,
            GomodEndpoint::Info => ".info"@,
            GomodEndpoint::Mod => ".mod"@,
            GomodEndpoint::Zip => ".zip"@,
        }
    }

    /// How the path of the endpoint ends.
    pub fn extension(&self) -> (r: &'static str)
        ensures
            r@ == self.ending(),
    {
        match self {
            GomodEndpoint::List => "list",
            GomodEndpoint::Latest => "latest",
            GomodEndpoint::Info => ".info",
            GomodEndpoint::Mod => ".mod",
            GomodEndpoint::Zip => ".zip",
        }
    }

    /// The type of what the endpoint serves.
    pub open spec fn served_type(self) -> Seq<char> {
        match self {
            GomodEndpoint::List | GomodEndpoint::Mod => "text/plain; charset=utf-8"@,
            GomodEndpoint::Latest | GomodEndpoint::Info => "application/json"@,
            GomodEndpoint::Zip => "application/octet-stream"@,
        }
    }

    /// The type of what the endpoint serves.
    pub fn content_type(&self) -> (r: &'static str)
        ensures
            r@ == self.served_type(),
    {
        match self {
            GomodEndpoint::List | GomodEndpoint::Mod => "text/plain; charset=utf-8",
            GomodEndpoint::Latest | GomodEndpoint::Info => "application/json",
            GomodEndpoint::Zip => "application/octet-stream",
        }
    }

    /// Whether a single version is checked before the endpoint answers.
    pub fn needs_delay_check(&self) -> (r: bool)
        ensures
            r == (*self != GomodEndpoint::List),
    {
        match self {
            GomodEndpoint::List => false,
            _ => true,
        }
    }

    /// Whether the answer is passed on as it comes in.
    pub fn should_stream(&self) -> (r: bool)
        ensures
            r == (*self == GomodEndpoint::Zip),
    {
        match self {
            GomodEndpoint::Zip => true,
            _ => false,
        }
    }

    /// Whether the endpoint is served from the download source.
    pub fn uses_download_registry(&self) -> (r: bool)
        ensures
            r == (*self == GomodEndpoint::Zip),
    {
        match self {
            GomodEndpoint::Zip => true,
            _ => false,
        }
    }

    /// How long an upstream server may take for the endpoint, in milliseconds.
    pub fn timeout_ms(&self) -> (r: u32)
        ensures
            r == (match self {
                GomodEndpoint::Zip => 30000u32,
                GomodEndpoint::List => 10000u32,
                _ => 5000u32,
            }),
    {
        match self {
            GomodEndpoint::Zip => 30000,
            GomodEndpoint::List => 10000,
            _ => 5000,
        }
    }
}

/// Whether a capital letter of a path is marked: not where it goes on from a
/// small letter, unless it ends the path, and not where it repeats the capital
/// before it.
pub open spec fn is_marked(path: Seq<char>, capitals: Seq<bool>, i: int) -> bool {
    if i == 0 {
        true
    } else if capitals[i - 1] {
        text::ascii_lower(path[i]) != text::ascii_lower(path[i - 1])
    } else if 'a' <= path[i - 1] <= 'z' {
        i == path.len() - 1
    } else {
        true
    }
}

/// The first `n` characters of a path with its capitals made small and marked by
/// an exclamation mark.
pub open spec fn escape_to(path: Seq<char>, capitals: Seq<bool>, n: int) -> Seq<char>
    decreases n,
{
    if n <= 0 {
        Seq::empty()
    } else {
        let front = escape_to(path, capitals, n - 1);
        if !capitals[n - 1] {
            front.push(path[n - 1])
        } else if is_marked(path, capitals, n - 1) {
            front.push('!').push(text::ascii_lower(path[n - 1]))
        } else {
            front.push(text::ascii_lower(path[n - 1]))
        }
    }
}

/// A module path in the form in which a proxy is asked for it, given which of its
/// characters are capitals.
pub open spec fn escape(path: Seq<char>, capitals: Seq<bool>) -> Seq<char> {
    escape_to(path, capitals, path.len() as int)
}

/// Which characters of a text are capital letters.
pub open spec fn capitals(s: Seq<char>) -> Seq<bool> {
    Seq::new(s.len(), |i: int| text::uppercase(s[i]))
}

/// Which characters of a text are ASCII capital letters.
pub open spec fn ascii_capitals(s: Seq<char>) -> Seq<bool> {
    Seq::new(s.len(), |i: int| 'A' <= s[i] <= 'Z')
}

fn capitals_of(s: &str) -> (r: Vec<bool>)
    ensures
        r@ == capitals(s@),
        text::is_ascii(s@) ==> r@ == ascii_capitals(s@),
{
    let chars = text::chars_of(s);
    let mut r: Vec<bool> = Vec::new();
    let mut i: usize = 0;
    while i < chars.len()
        invariant
            chars@ == s@,
            i <= s@.len(),
            r@.len() == i,
            forall|j: int| 0 <= j < i ==> r@[j] == text::uppercase(s@[j]),
            text::is_ascii(s@) ==> forall|j: int|
                0 <= j < i ==> #[trigger] r@[j] == ('A' <= s@[j] <= 'Z'),
        decreases s@.len() - i,
    {
        proof {
            if text::is_ascii(s@) {
                assert((s@[i as int] as int) < 128);
            }
        }
        r.push(chars[i].is_uppercase());
        i += 1;
    }
    proof {
        assert(r@ =~= capitals(s@));
        if text::is_ascii(s@) {
            assert(r@ =~= ascii_capitals(s@));
        }
    }
    r
}

/// Escapes a module path, given which of its characters are capitals.
pub fn escape_capitals(module: &str, capitals: &Vec<bool>) -> (r: String)
    requires
        capitals@.len() == module@.len(),
    ensures
        r@ == escape(module@, capitals@),
{
    let chars = text::chars_of(module);
    let n: usize = chars.len();
    let mut r = String::new();
    let mut i: usize = 0;
    while i < n
        invariant
            chars@ == module@,
            n == module@.len(),
            capitals@.len() == n,
            i <= n,
            r@ == escape_to(module@, capitals@, i as int),
        decreases n - i,
    {
        if !capitals[i] {
            r.push(chars[i]);
        } else {
            let marked = if i == 0 {
                true
            } else if capitals[i - 1] {
                text::lower_char(chars[i]) != text::lower_char(chars[i - 1])
            } else if 'a' <= chars[i - 1] && chars[i - 1] <= 'z' {
                i == n - 1
            } else {
                true
            };
            if marked {
                r.push('!');
            }
            r.push(text::lower_char(chars[i]));
        }
        i += 1;
    }
    r
}

/// The form of a module path in which a proxy is asked for it.
pub fn escape_module_path(module: &str) -> (r: String)
    ensures
        r@ == escape(module@, capitals(module@)),
        text::is_ascii(module@) ==> r@ == escape(module@, ascii_capitals(module@)),
{
    let caps = capitals_of(module);
    escape_capitals(module, &caps)
}

proof fn lemma_escape_small(path: Seq<char>, n: int)
    requires
        0 <= n <= path.len(),
        forall|i: int| 0 <= i < path.len() ==> !('A' <= #[trigger] path[i] <= 'Z'),
    ensures
        escape_to(path, ascii_capitals(path), n) == path.take(n),
    decreases n,
{
    if n > 0 {
        lemma_escape_small(path, n - 1);
        assert(!('A' <= path[n - 1] <= 'Z'));
        assert(path.take(n) =~= path.take(n - 1).push(path[n - 1]));
    } else {
        assert(path.take(0) =~= Seq::empty());
    }
}

/// A path without capitals is its own escaped form.
pub proof fn law_escape_small_path(path: Seq<char>)
    requires
        forall|i: int| 0 <= i < path.len() ==> !('A' <= #[trigger] path[i] <= 'Z'),
    ensures
        escape(path, ascii_capitals(path)) == path,
{
    lemma_escape_small(path, path.len() as int);
    assert(path.take(path.len() as int) =~= path);
}

proof fn lemma_escape_no_capitals(path: Seq<char>, n: int)
    requires
        0 <= n <= path.len(),
    ensures
        forall|i: int|
            0 <= i < escape_to(path, ascii_capitals(path), n).len() ==> !('A'
                <= #[trigger] escape_to(path, ascii_capitals(path), n)[i] <= 'Z'),
    decreases n,
{
    if n > 0 {
        lemma_escape_no_capitals(path, n - 1);
        let front = escape_to(path, ascii_capitals(path), n - 1);
        let r = escape_to(path, ascii_capitals(path), n);
        assert forall|i: int| 0 <= i < r.len() implies !('A' <= #[trigger] r[i] <= 'Z') by {
            if i < front.len() {
                assert(r[i] == front[i]);
            }
        }
    }
}

/// An escaped path has no capitals, so that escaping it again changes nothing.
pub proof fn law_escape_twice(path: Seq<char>)
    ensures
        ({
            let once = escape(path, ascii_capitals(path));
            &&& forall|i: int| 0 <= i < once.len() ==> !('A' <= #[trigger] once[i] <= 'Z')
            &&& escape(once, ascii_capitals(once)) == once
        }),
{
    lemma_escape_no_capitals(path, path.len() as int);
    law_escape_small_path(escape(path, ascii_capitals(path)));
}

/// The moment that the time of a version names, or a message.
pub fn require_version_time(time: Option<Timestamp>) -> (r: Result<Timestamp, String>)
    ensures
        match r {
            Ok(t) => time == Some(t),
            Err(m) => time is None && m@ == "Invalid timestamp format"@,
        },
{
    match time {
        Some(t) => Ok(t),
        None => Err("Invalid timestamp format".to_owned()),
    }
}

/// Reads the time of a version.
pub fn parse_version_time(time_str: &str) -> (r: Result<Timestamp, String>)
    ensures
        match r {
            Ok(t) => timestamp::rfc3339_time(time_str@) == Some((t.secs, t.nanos)) && t.is_date(),
            Err(m) => timestamp::rfc3339_time(time_str@) is None && m@
                == "Invalid timestamp format"@,
        },
{
    require_version_time(timestamp::parse_rfc3339(time_str))
}

/// When a version that is not served as it is was published.
pub open spec fn reject_time(result: CheckView) -> Option<Timestamp> {
    match result {
        CheckView::Allowed => None,
        CheckView::Denied { publish_time } => Some(publish_time),
        CheckView::Downgraded { original_time, .. } => Some(original_time),
    }
}

/// When a version that is not served as it is was published.
pub fn extract_reject_time(result: &VersionCheckResult) -> (r: Option<&Timestamp>)
    ensures
        match r {
            Some(t) => reject_time(result@) == Some(*t),
            None => reject_time(result@) is None,
        },
{
    match result {
        VersionCheckResult::Denied { publish_time } => Some(publish_time),
        VersionCheckResult::Downgraded { original_time, .. } => Some(original_time),
        VersionCheckResult::Allowed => None,
    }
}

/// The fourteen digits of date and time in a pseudo-version: what stands, behind
/// any dot, before the last hyphen and behind the one before it.
pub open spec fn pseudo_stamp(version: Seq<char>) -> Option<Seq<char>> {
    let parts = text::split(version, '-');
    if parts.len() < 3 {
        None
    } else {
        let stamp = text::after_last(parts[parts.len() - 2], '.');
        if stamp.len() == 14 && text::all_digits(stamp) {
            Some(stamp)
        } else {
            None
        }
    }
}

/// Fourteen digits of date and time in the form of RFC 3339, in UTC.
pub open spec fn stamp_text(stamp: Seq<char>) -> Seq<char> {
    stamp.subrange(0, 4) + "-"@ + stamp.subrange(4, 6) + "-"@ + stamp.subrange(6, 8) + "T"@
        + stamp.subrange(8, 10) + ":"@ + stamp.subrange(10, 12) + ":"@ + stamp.subrange(12, 14)
        + "Z"@
}

/// The date and time in a pseudo-version, in the form of RFC 3339.
pub fn pseudo_version_text(version: &str) -> (r: Option<String>)
    ensures
        match r {
            Some(s) => pseudo_stamp(version@) matches Some(stamp) && s@ == stamp_text(stamp),
            None => pseudo_stamp(version@) is None,
        },
{
    let parts = text::split_text(version, '-');
    let n: usize = parts.len();
    proof {
        assert(text::views(parts@).len() == n);
    }
    if n < 3 {
        return None;
    }
    let stamp = text::last_piece(parts[n - 2].as_str(), '.');
    let chars = text::chars_of(stamp);
    if chars.len() != 14 {
        return None;
    }
    let mut i: usize = 0;
    while i < 14
        invariant
            i <= 14,
            chars@ == stamp@,
            chars@.len() == 14,
            stamp@ == text::after_last(text::split(version@, '-')[n - 2], '.'),
            n == text::split(version@, '-').len(),
            n >= 3,
            forall|j: int| 0 <= j < i ==> text::is_digit(#[trigger] stamp@[j]),
        decreases 14 - i,
    {
        if !('0' <= chars[i] && chars[i] <= '9') {
            proof {
                assert(!text::is_digit(stamp@[i as int]));
            }
            return None;
        }
        i += 1;
    }
    Some(
        stamp.substring_char(0, 4).to_owned().concat("-").concat(
            stamp.substring_char(4, 6),
        ).concat("-").concat(stamp.substring_char(6, 8)).concat("T").concat(
            stamp.substring_char(8, 10),
        ).concat(":").concat(stamp.substring_char(10, 12)).concat(":").concat(
            stamp.substring_char(12, 14),
        ).concat("Z"),
    )
}

/// The moment that a pseudo-version names.
pub open spec fn pseudo_time(version: Seq<char>) -> Option<Timestamp> {
    match pseudo_stamp(version) {
        None => None,
        Some(stamp) => match timestamp::rfc3339_time(stamp_text(stamp)) {
            Some((secs, nanos)) => Some(Timestamp { secs, nanos }),
            None => None,
        },
    }
}

/// The moment that a pseudo-version names.
pub fn extract_pseudo_version_time(version: &str) -> (r: Option<Timestamp>)
    ensures
        r == pseudo_time(version@),
        r matches Some(t) ==> t.is_date(),
{
    match pseudo_version_text(version) {
        Some(s) => timestamp::parse_rfc3339(s.as_str()),
        None => None,
    }
}

/// What a check of a module version comes to.
#[derive(Debug, PartialEq)]
pub enum DelayCheckResult {
    Allowed { info_body: String },
    Denied { publish_time: Timestamp },
    NotFound,
    UpstreamError(u16),
}

/// What a check says.
#[verifier::ext_equal]
pub enum ModuleCheckView {
    Allowed { info_body: Seq<char> },
    Denied { publish_time: Timestamp },
    NotFound,
    UpstreamError(u16),
}

impl View for DelayCheckResult {
    type V = ModuleCheckView;

    open spec fn view(&self) -> ModuleCheckView {
        match self {
            DelayCheckResult::Allowed { info_body } => ModuleCheckView::Allowed {
                info_body: info_body@,
            },
            DelayCheckResult::Denied { publish_time } => ModuleCheckView::Denied {
                publish_time: *publish_time,
            },
            DelayCheckResult::NotFound => ModuleCheckView::NotFound,
            DelayCheckResult::UpstreamError(status) => ModuleCheckView::UpstreamError(*status),
        }
    }
}

/// What the rule says of a version published at a given time.
pub open spec fn time_check(
    cutoff: Timestamp,
    publish_time: Timestamp,
    info_body: Seq<char>,
) -> ModuleCheckView {
    if publish_time.le(cutoff) {
        ModuleCheckView::Allowed { info_body }
    } else {
        ModuleCheckView::Denied { publish_time }
    }
}

/// Checks a version published at a given time.
pub fn check_time(checker: &DelayChecker, publish_time: Timestamp, info_body: String) -> (r:
    DelayCheckResult)
    ensures
        r@ == time_check(checker.cutoff(), publish_time, info_body@),
{
    if checker.is_version_allowed(&publish_time) {
        DelayCheckResult::Allowed { info_body }
    } else {
        DelayCheckResult::Denied { publish_time }
    }
}

/// Checks a pseudo-version by the moment that it names; gives nothing for a
/// version of another kind.
pub fn check_pseudo_version(checker: &DelayChecker, version: &str) -> (r: Option<DelayCheckResult>)
    ensures
        match r {
            Some(c) => pseudo_time(version@) matches Some(t) && c@ == time_check(
                checker.cutoff(),
                t,
                Seq::empty(),
            ),
            None => pseudo_time(version@) is None,
        },
        r matches Some(DelayCheckResult::Denied { publish_time }) ==> publish_time.is_date(),
{
    match extract_pseudo_version_time(version) {
        Some(t) => Some(check_time(checker, t, String::new())),
        None => None,
    }
}

/// Checks a version by the time that its info file gives; `info_body` is the
/// whole file.
pub fn check_info(checker: &DelayChecker, time_str: &str, info_body: String) -> (r: Result<
    DelayCheckResult,
    String,
>)
    ensures
        match r {
            Ok(c) => timestamp::rfc3339_time(time_str@) matches Some((secs, nanos)) && c@
                == time_check(checker.cutoff(), Timestamp { secs, nanos }, info_body@),
            Err(m) => timestamp::rfc3339_time(time_str@) is None && m@
                == "Invalid timestamp format"@,
        },
        r matches Ok(DelayCheckResult::Denied { publish_time }) ==> publish_time.is_date(),
{
    match parse_version_time(time_str) {
        Ok(t) => Ok(check_time(checker, t, info_body)),
        Err(m) => Err(m),
    }
}

/// Whether a version is left out of the list of versions, by what its check came
/// to: only where it is denied, not where the check failed.
pub fn is_left_out(check: &Result<DelayCheckResult, String>) -> (r: bool)
    ensures
        r == (check matches Ok(DelayCheckResult::Denied { .. })),
{
    match check {
        Ok(DelayCheckResult::Denied { .. }) => true,
        _ => false,
    }
}

/// Under what the info file of a version is kept.
pub fn cache_key(module: &str, version: &str) -> (r: String)
    ensures
        r@ == module@ + "@"@ + version@,
{
    module.to_owned().concat("@").concat(version)
}

/// What is kept of an info file, as long as it is fresh: under thirty seconds.
pub fn fresh_info(kept: Option<(String, u64)>) -> (r: Option<String>)
    ensures
        match r {
            Some(body) => kept matches Some((b, age)) && age < 30 && b@ == body@,
            None => kept matches Some((b, age)) ==> age >= 30,
        },
{
    match kept {
        Some((body, age_secs)) => if age_secs < 30 {
            Some(body)
        } else {
            None
        },
        None => None,
    }
}

/// Where the info file of a version is found, given the escaped module path.
pub fn escaped_info_url(escaped_module: &str, version: &str, config: &Config) -> (r: String)
    ensures
        r@ == config.meta_url(escaped_module@, "/@v/"@ + version@ + ".info"@),
{
    let path = "/@v/".to_owned().concat(version).concat(".info");
    config.gomod_meta_url(escaped_module, path.as_str())
}

/// Where the info file of a version is found.
pub fn info_url(module: &str, version: &str, config: &Config) -> (r: String)
    ensures
        r@ == config.meta_url(
            escape(module@, capitals(module@)),
            "/@v/"@ + version@ + ".info"@,
        ),
        text::is_ascii(module@) ==> r@ == config.meta_url(
            escape(module@, ascii_capitals(module@)),
            "/@v/"@ + version@ + ".info"@,
        ),
{
    let escaped = escape_module_path(module);
    escaped_info_url(escaped.as_str(), version, config)
}

/// Whether an info file was found, by the status of the answer, or a message.
pub fn info_found(status: u16) -> (r: Result<bool, String>)
    ensures
        match r {
            Ok(found) => (status == 404 || fetch::success(status)) && found == (status != 404),
            Err(m) => status != 404 && !fetch::success(status) && m@ == "Upstream error: "@
                + text::decimal(status as int),
        },
{
    if status == 404 {
        return Ok(false);
    }
    if !fetch::is_success(status) {
        return Err("Upstream error: ".to_owned().concat(text::decimal_text(status as i64).as_str()));
    }
    Ok(true)
}

/// The answer for a version that is withheld.
pub open spec fn forbidden(module: Seq<char>, version: Seq<char>, days: i64, published: Seq<char>) -> ReplyView {
    ReplyView::json(
        404,
        JsonView::object().put("error"@, JsonView::Str("Version too recent for access"@)).put(
            "module"@,
            JsonView::Str(module),
        ).put("requested_version"@, JsonView::Str(version)).put(
            "reason"@,
            JsonView::Str(too_recent(days)),
        ).put("publish_time"@, JsonView::Str(published)).put(
            "suggestion"@,
            JsonView::Str("Try again later or use an older version"@),
        ),
    ).header("X-Delay-Original-Version"@, version).header(
        "X-Delay-Reason"@,
        "Version published too recently, below delay threshold"@,
    ).header("X-Delay-Publish-Time"@, published).header("Content-Type"@, "application/json"@)
}

/// The answer for a version that is withheld, given how its time is written.
pub fn forbidden_reply(module: &str, version: &str, days: i64, published: &str) -> (r: Reply)
    ensures
        r@ == forbidden(module@, version@, days, published@),
{
    let body = Json::object().put("error", Json::string("Version too recent for access")).put(
        "module",
        Json::string(module),
    ).put("requested_version", Json::string(version)).put(
        "reason",
        Json::Str(too_recent_text(days)),
    ).put("publish_time", Json::string(published)).put(
        "suggestion",
        Json::string("Try again later or use an older version"),
    );
    Reply::json(404, body).header("X-Delay-Original-Version", version).header(
        "X-Delay-Reason",
        "Version published too recently, below delay threshold",
    ).header("X-Delay-Publish-Time", published).header("Content-Type", "application/json")
}

/// The answer and the line of the log for a version that is withheld.
pub fn build_forbidden_response(
    module: &str,
    version: &str,
    reject_time: &Timestamp,
    delay_checker: &DelayChecker,
    logger: &DelayLogger,
    client_ip: Option<&str>,
) -> (r: (Reply, DelayLogEntry))
    requires
        reject_time.is_date(),
    ensures
        r.0@ == forbidden(
            module@,
            version@,
            delay_checker.days(),
            timestamp::rfc3339_text(reject_time.secs, reject_time.nanos),
        ),
        r.1@ == LogView::blocked(
            PackageType::GoMod,
            module@,
            version@,
            too_recent(delay_checker.days()),
            text::slice_view(client_ip),
        ),
        r.1.timestamp.is_date(),
{
    let reason = too_recent_text(delay_checker.delay_days());
    let entry = logger.log_blocked(
        PackageType::GoMod,
        module,
        version,
        reason.as_str(),
        client_ip,
    );
    let published = timestamp::rfc3339(reject_time);
    (forbidden_reply(module, version, delay_checker.delay_days(), published.as_str()), entry)
}

/// What is said of a version that does not exist.
pub open spec fn not_found(module: Seq<char>, version: Seq<char>) -> JsonView {
    JsonView::object().put("error"@, JsonView::Str("Version not found"@)).put(
        "module"@,
        JsonView::Str(module),
    ).put("version"@, JsonView::Str(version))
}

/// What is said of a version that does not exist.
pub fn not_found_json(module: &str, version: &str) -> (r: Json)
    ensures
        r@ == not_found(module@, version@),
{
    Json::object().put("error", Json::string("Version not found")).put(
        "module",
        Json::string(module),
    ).put("version", Json::string(version))
}

/// What is said of an upstream server that answers with an error.
pub open spec fn upstream_error(status: u16) -> JsonView {
    JsonView::object().put("error"@, JsonView::Str("Upstream registry error"@)).put(
        "status"@,
        JsonView::Number(text::decimal(status as int)),
    )
}

/// What is said of an upstream server that answers with an error.
pub fn upstream_error_json(status: u16) -> (r: Json)
    ensures
        r@ == upstream_error(status),
{
    Json::object().put("error", Json::string("Upstream registry error")).put(
        "status",
        Json::integer(status as i64),
    )
}

/// The address of a client: what the first header says, or the second where the
/// first cannot be read.
pub fn extract_client_ip(
    connecting: Result<Option<String>, ()>,
    forwarded: Result<Option<String>, ()>,
) -> (r: Option<String>)
    ensures
        r == (match connecting {
            Ok(ip) => ip,
            Err(_) => match forwarded {
                Ok(ip) => ip,
                Err(_) => None,
            },
        }),
{
    match connecting {
        Ok(ip) => ip,
        Err(_) => match forwarded {
            Ok(ip) => ip,
            Err(_) => None,
        },
    }
}

/// The module and version that a path names.
pub open spec fn module_and_version(path: Seq<char>, endpoint: GomodEndpoint) -> Option<
    (Seq<char>, Seq<char>),
> {
    let parts = text::segments(path);
    if parts.len() < 5 {
        None
    } else {
        let module = text::join(parts.subrange(1, parts.len() - 2), "/"@);
        let version = if endpoint == GomodEndpoint::List || endpoint == GomodEndpoint::Latest {
            endpoint.ending()
        } else {
            text::trim_end_text(
                text::trim_end_text(text::trim_end_text(parts.last(), ".info"@), ".mod"@),
                ".zip"@,
            )
        };
        Some((module, version))
    }
}

/// Reads the module and version from a path.
pub fn parse_gomod_path(path: &str, endpoint: GomodEndpoint) -> (r: Result<
    (String, String),
    String,
>)
    ensures
        match r {
            Ok((module, version)) => module_and_version(path@, endpoint) == Some(
                (module@, version@),
            ),
            Err(m) => module_and_version(path@, endpoint) is None && m@
                == "Invalid Go module path format"@,
        },
{
    let parts = text::path_segments(path);
    let n: usize = parts.len();
    proof {
        assert(text::views(parts@).len() == n);
        reveal_strlit(".info");
        reveal_strlit(".mod");
        reveal_strlit(".zip");
    }
    if n < 5 {
        return Err("Invalid Go module path format".to_owned());
    }
    let module = text::join_range(&parts, 1, n - 2, "/");
    let version = match endpoint {
        GomodEndpoint::List | GomodEndpoint::Latest => endpoint.extension().to_owned(),
        _ => text::trim_end_str(
            text::trim_end_str(text::trim_end_str(parts[n - 1].as_str(), ".info"), ".mod"),
            ".zip",
        ).to_owned(),
    };
    Ok((module, version))
}

/// Where what an endpoint serves is found upstream.
pub open spec fn upstream_url(
    escaped_module: Seq<char>,
    version: Seq<char>,
    config: Config,
    endpoint: GomodEndpoint,
) -> Seq<char> {
    let path = "/@v/"@ + version + endpoint.ending();
    if endpoint == GomodEndpoint::Zip {
        config.download_url(escaped_module, path)
    } else {
        config.meta_url(escaped_module, path)
    }
}

/// Where what an endpoint serves is found upstream, given the escaped module
/// path.
pub fn escaped_upstream_url(
    escaped_module: &str,
    version: &str,
    config: &Config,
    endpoint: GomodEndpoint,
) -> (r: String)
    ensures
        r@ == upstream_url(escaped_module@, version@, *config, endpoint),
{
    let path = "/@v/".to_owned().concat(version).concat(endpoint.extension());
    if endpoint.uses_download_registry() {
        config.gomod_download_url(escaped_module, path.as_str())
    } else {
        config.gomod_meta_url(escaped_module, path.as_str())
    }
}

/// Where what an endpoint serves is found upstream.
pub fn build_upstream_url(
    module: &str,
    version: &str,
    config: &Config,
    endpoint: GomodEndpoint,
) -> (r: String)
    ensures
        r@ == upstream_url(escape(module@, capitals(module@)), version@, *config, endpoint),
        text::is_ascii(module@) ==> r@ == upstream_url(
            escape(module@, ascii_capitals(module@)),
            version@,
            *config,
            endpoint,
        ),
{
    let escaped = escape_module_path(module);
    escaped_upstream_url(escaped.as_str(), version, config, endpoint)
}

/// The answer with what an endpoint serves.
pub open spec fn served(endpoint: GomodEndpoint, body: Seq<char>) -> ReplyView {
    ReplyView::text(200, body).header("Content-Type"@, endpoint.served_type())
}

/// The answer with what an endpoint serves.
pub fn serve_text(endpoint: GomodEndpoint, body: String) -> (r: Reply)
    ensures
        r@ == served(endpoint, body@),
{
    Reply::text(200, body).header("Content-Type", endpoint.content_type())
}

/// Whether the answer of the download source is passed on; `None` stands for no
/// answer.
pub fn zip_is_served(status: Option<u16>) -> (r: bool)
    ensures
        r == (status == Some(200u16)),
{
    match status {
        Some(s) => s == 200,
        None => false,
    }
}

/// What is said where neither source has a module zip, given the answer of the
/// second; nothing where that is passed on.
pub fn zip_fallback_reply(outcome: Result<u16, String>) -> (r: Option<Reply>)
    ensures
        match r {
            None => outcome == Ok::<u16, String>(200),
            Some(reply) => match outcome {
                Ok(status) => status != 200 && reply@ == ReplyView::json(
                    status,
                    upstream_error(status),
                ),
                Err(e) => reply@ == ReplyView::text(502, "{\"error\":\""@ + e@ + "\"}"@),
            },
        },
{
    match outcome {
        Ok(status) => if status == 200 {
            None
        } else {
            Some(Reply::json(status, upstream_error_json(status)))
        },
        Err(e) => Some(
            Reply::text(502, "{\"error\":\"".to_owned().concat(e.as_str()).concat("\"}")),
        ),
    }
}

/// What is said of a version list that upstream does not give.
pub fn list_error_reply(module: &str, status: u16) -> (r: Option<Reply>)
    ensures
        match r {
            None => status != 404 && fetch::success(status),
            Some(reply) => if status == 404 {
                reply@ == ReplyView::json(404, not_found(module@, "list"@))
            } else {
                !fetch::success(status) && reply@ == ReplyView::json(502, upstream_error(status))
            },
        },
{
    if status == 404 {
        return Some(Reply::json(404, not_found_json(module, "list")));
    }
    if !fetch::is_success(status) {
        return Some(Reply::json(502, upstream_error_json(status)));
    }
    None
}

/// The versions that are not denied, in order.
pub open spec fn undenied(versions: Seq<Seq<char>>, denied: Seq<bool>) -> Seq<Seq<char>>
    decreases versions.len(),
{
    if versions.len() == 0 {
        Seq::empty()
    } else if denied[versions.len() - 1] {
        undenied(versions.drop_last(), denied)
    } else {
        undenied(versions.drop_last(), denied).push(versions.last())
    }
}

/// The lines of the log for the versions that are denied, in order.
pub open spec fn denial_lines(
    module: Seq<char>,
    versions: Seq<Seq<char>>,
    denied: Seq<bool>,
    days: i64,
) -> Seq<LogView>
    decreases versions.len(),
{
    if versions.len() == 0 {
        Seq::empty()
    } else if denied[versions.len() - 1] {
        denial_lines(module, versions.drop_last(), denied, days).push(
            LogView::blocked(PackageType::GoMod, module, versions.last(), too_recent(days), None),
        )
    } else {
        denial_lines(module, versions.drop_last(), denied, days)
    }
}

/// The answer with a version list.
pub open spec fn list_reply(versions: Seq<Seq<char>>) -> ReplyView {
    ReplyView::text(200, text::join(versions, "\n"@)).header(
        "Content-Type"@,
        "text/plain; charset=utf-8"@,
    ).header(
        "X-Delay-Warning"@,
        "Go Modules list endpoint has been filtered by delay policy. Some recent versions may be hidden."@,
    )
}

/// The answer with the versions that are not denied, and the lines of the log for
/// those that are.
pub fn filter_list(module: &str, versions: &Vec<String>, denied: &Vec<bool>, days: i64) -> (r: (
    Reply,
    Vec<DelayLogEntry>,
))
    requires
        versions@.len() == denied@.len(),
    ensures
        delay_logger::all_dated(r.1@),
        r.0@ == list_reply(undenied(text::views(versions@), denied@)),
        delay_logger::log_views(r.1@) == denial_lines(
            module@,
            text::views(versions@),
            denied@,
            days,
        ),
{
    let ghost all = text::views(versions@);
    let logger = DelayLogger::new();
    let mut kept: Vec<String> = Vec::new();
    let mut logs: Vec<DelayLogEntry> = Vec::new();
    let mut i: usize = 0;
    proof {
        assert(all.take(0) =~= Seq::empty());
        assert(text::views(kept@) =~= Seq::empty());
        assert(delay_logger::log_views(logs@) =~= Seq::empty());
    }
    while i < versions.len()
        invariant
            i <= versions@.len(),
            versions@.len() == denied@.len(),
            all == text::views(versions@),
            text::views(kept@) == undenied(all.take(i as int), denied@),
            delay_logger::all_dated(logs@),
            delay_logger::log_views(logs@) == denial_lines(
                module@,
                all.take(i as int),
                denied@,
                days,
            ),
        decreases versions@.len() - i,
    {
        proof {
            assert(all.take(i + 1).drop_last() =~= all.take(i as int));
            assert(all.take(i + 1).last() == all[i as int]);
        }
        if denied[i] {
            let reason = too_recent_text(days);
            let ghost before = delay_logger::log_views(logs@);
            let entry = logger.log_blocked(
                PackageType::GoMod,
                module,
                versions[i].as_str(),
                reason.as_str(),
                None,
            );
            let ghost line = entry@;
            logs.push(entry);
            proof {
                assert(delay_logger::log_views(logs@) =~= before.push(line));
            }
        } else {
            let ghost before = text::views(kept@);
            kept.push(versions[i].clone());
            proof {
                assert(text::views(kept@) =~= before.push(all[i as int]));
            }
        }
        i += 1;
    }
    proof {
        assert(all.take(all.len() as int) =~= all);
    }
    let body = text::join_all(&kept, "\n");
    let reply = Reply::text(200, body).header("Content-Type", "text/plain; charset=utf-8").header(
        "X-Delay-Warning",
        "Go Modules list endpoint has been filtered by delay policy. Some recent versions may be hidden.",
    );
    (reply, logs)
}

/// A version stays in the list exactly if it is not denied.
pub proof fn law_list_hides_denied(versions: Seq<Seq<char>>, denied: Seq<bool>, version: Seq<char>)
    requires
        versions.len() <= denied.len(),
    ensures
        undenied(versions, denied).contains(version) <==> exists|i: int|
            0 <= i < versions.len() && versions[i] == version && !denied[i],
    decreases versions.len(),
{
    if versions.len() > 0 {
        let front = versions.drop_last();
        let n = versions.len() - 1;
        law_list_hides_denied(front, denied, version);
        let shorter = undenied(front, denied);
        let r = undenied(versions, denied);
        if shorter.contains(version) {
            let k = choose|k: int| 0 <= k < front.len() && front[k] == version && !denied[k];
            assert(versions[k] == version && !denied[k]);
            let l = choose|l: int| 0 <= l < shorter.len() && shorter[l] == version;
            assert(r[l] == version);
        }
        if exists|i: int| 0 <= i < versions.len() && versions[i] == version && !denied[i] {
            let i = choose|i: int| 0 <= i < versions.len() && versions[i] == version && !denied[i];
            if i < n {
                assert(front[i] == version && !denied[i]);
            } else {
                assert(r[r.len() - 1] == version);
            }
        }
        if r.contains(version) && !shorter.contains(version) {
            let l = choose|l: int| 0 <= l < r.len() && r[l] == version;
            if l < shorter.len() {
                assert(shorter[l] == version);
            }
            assert(versions[n] == version && !denied[n]);
        }
    }
}

/// What to do for a module request: answer, pass on what a server sends, or pass
/// on a zip file from the first of two servers that has it.
#[derive(Debug, PartialEq)]
pub enum ModuleAction {
    Answer(Reply),
    Serve { url: String },
    ServeZip { primary_url: String, fallback_url: String },
}

/// What an action says.
#[verifier::ext_equal]
pub enum ActionView {
    Answer(ReplyView),
    Serve { url: Seq<char> },
    ServeZip { primary_url: Seq<char>, fallback_url: Seq<char> },
}

impl View for ModuleAction {
    type V = ActionView;

    open spec fn view(&self) -> ActionView {
        match self {
            ModuleAction::Answer(r) => ActionView::Answer(r@),
            ModuleAction::Serve { url } => ActionView::Serve { url: url@ },
            ModuleAction::ServeZip { primary_url, fallback_url } => ActionView::ServeZip {
                primary_url: primary_url@,
                fallback_url: fallback_url@,
            },
        }
    }
}

/// What is done for a module request, given the escaped module path and what
/// the check of the version came to.
pub open spec fn action(
    check: ModuleCheckView,
    module: Seq<char>,
    escaped: Seq<char>,
    version: Seq<char>,
    config: Config,
    days: i64,
    endpoint: GomodEndpoint,
) -> ActionView {
    match check {
        ModuleCheckView::Allowed { info_body } => if endpoint == GomodEndpoint::Zip {
            let path = "/@v/"@ + version + ".zip"@;
            ActionView::ServeZip {
                primary_url: config.download_url(escaped, path),
                fallback_url: config.meta_url(escaped, path),
            }
        } else if (endpoint == GomodEndpoint::Info || endpoint == GomodEndpoint::Latest)
            && info_body.len() > 0 {
            ActionView::Answer(served(endpoint, info_body))
        } else {
            ActionView::Serve { url: upstream_url(escaped, version, config, endpoint) }
        },
        ModuleCheckView::Denied { publish_time } => ActionView::Answer(
            forbidden(
                module,
                version,
                days,
                timestamp::rfc3339_text(publish_time.secs, publish_time.nanos),
            ),
        ),
        ModuleCheckView::NotFound => ActionView::Answer(
            ReplyView::json(404, not_found(module, version)),
        ),
        ModuleCheckView::UpstreamError(status) => ActionView::Answer(
            ReplyView::json(status, upstream_error(status)),
        ),
    }
}

/// The line of the log for a module request.
pub open spec fn log_line(
    check: ModuleCheckView,
    module: Seq<char>,
    version: Seq<char>,
    days: i64,
    client_ip: Option<Seq<char>>,
) -> Seq<LogView> {
    match check {
        ModuleCheckView::Allowed { .. } => seq![
            LogView::allowed(PackageType::GoMod, module, version, client_ip),
        ],
        ModuleCheckView::Denied { .. } => seq![
            LogView::blocked(PackageType::GoMod, module, version, too_recent(days), client_ip),
        ],
        _ => Seq::empty(),
    }
}

/// Decides what is done for a module request, given the escaped module path and
/// what the check of the version came to.
pub fn decide(
    check: DelayCheckResult,
    module: &str,
    escaped: &str,
    version: &str,
    config: &Config,
    checker: &DelayChecker,
    endpoint: GomodEndpoint,
    client_ip: Option<String>,
) -> (r: (ModuleAction, Vec<DelayLogEntry>))
    requires
        check matches DelayCheckResult::Denied { publish_time } ==> publish_time.is_date(),
    ensures
        delay_logger::all_dated(r.1@),
        r.0@ == action(check@, module@, escaped@, version@, *config, checker.days(), endpoint),
        delay_logger::log_views(r.1@) == log_line(
            check@,
            module@,
            version@,
            checker.days(),
            text::opt_view(client_ip),
        ),
{
    let logger = DelayLogger::new();
    let ip = match &client_ip {
        Some(s) => Some(s.as_str()),
        None => None,
    };
    match check {
        DelayCheckResult::Allowed { info_body } => {
            let entry = logger.log_allowed(PackageType::GoMod, module, version, ip);
            let logs = delay_logger::one_entry(entry);
            if let GomodEndpoint::Zip = endpoint {
                let path = "/@v/".to_owned().concat(version).concat(".zip");
                return (
                    ModuleAction::ServeZip {
                        primary_url: config.gomod_download_url(escaped, path.as_str()),
                        fallback_url: config.gomod_meta_url(escaped, path.as_str()),
                    },
                    logs,
                );
            }
            let is_info = match endpoint {
                GomodEndpoint::Info | GomodEndpoint::Latest => true,
                _ => false,
            };
            if is_info && !info_body.as_str().is_empty() {
                (ModuleAction::Answer(serve_text(endpoint, info_body)), logs)
            } else {
                (
                    ModuleAction::Serve {
                        url: escaped_upstream_url(escaped, version, config, endpoint),
                    },
                    logs,
                )
            }
        },
        DelayCheckResult::Denied { publish_time } => {
            let (reply, entry) = build_forbidden_response(
                module,
                version,
                &publish_time,
                checker,
                &logger,
                ip,
            );
            (ModuleAction::Answer(reply), delay_logger::one_entry(entry))
        },
        DelayCheckResult::NotFound => {
            let logs = delay_logger::no_entries();
            (ModuleAction::Answer(Reply::json(404, not_found_json(module, version))), logs)
        },
        DelayCheckResult::UpstreamError(status) => {
            let logs = delay_logger::no_entries();
            (ModuleAction::Answer(Reply::json(status, upstream_error_json(status))), logs)
        },
    }
}

/// Decides what is done for a module request, given what the check of the
/// version came to.
pub fn handle_gomod_request(
    check: DelayCheckResult,
    module: &str,
    version: &str,
    config: &Config,
    checker: &DelayChecker,
    endpoint: GomodEndpoint,
    client_ip: Option<String>,
) -> (r: (ModuleAction, Vec<DelayLogEntry>))
    requires
        check matches DelayCheckResult::Denied { publish_time } ==> publish_time.is_date(),
    ensures
        delay_logger::all_dated(r.1@),
        r.0@ == action(
            check@,
            module@,
            escape(module@, capitals(module@)),
            version@,
            *config,
            checker.days(),
            endpoint,
        ),
        delay_logger::log_views(r.1@) == log_line(
            check@,
            module@,
            version@,
            checker.days(),
            text::opt_view(client_ip),
        ),
{
    let escaped = escape_module_path(module);
    decide(check, module, escaped.as_str(), version, config, checker, endpoint, client_ip)
}

/// A version that is withheld is never fetched, and one that is allowed is never
/// refused.
pub proof fn law_withheld_not_fetched(
    cutoff: Timestamp,
    publish_time: Timestamp,
    info_body: Seq<char>,
    module: Seq<char>,
    escaped: Seq<char>,
    version: Seq<char>,
    config: Config,
    days: i64,
    endpoint: GomodEndpoint,
)
    ensures
        ({
            let a = action(
                time_check(cutoff, publish_time, info_body),
                module,
                escaped,
                version,
                config,
                days,
                endpoint,
            );
            if publish_time.le(cutoff) {
                a matches ActionView::Answer(reply) ==> reply.status == 200
            } else {
                a matches ActionView::Answer(reply) && reply.status == 404
            }
        }),
{
}

/// Every check of a version that was found is logged, with what was decided.
pub proof fn law_check_logged(
    cutoff: Timestamp,
    publish_time: Timestamp,
    info_body: Seq<char>,
    module: Seq<char>,
    version: Seq<char>,
    days: i64,
    client_ip: Option<Seq<char>>,
)
    ensures
        ({
            let lines = log_line(
                time_check(cutoff, publish_time, info_body),
                module,
                version,
                days,
                client_ip,
            );
            &&& lines.len() == 1
            &&& lines[0].package_type == PackageType::GoMod
            &&& lines[0].package_name == module
            &&& lines[0].original_version == version
            &&& lines[0].client_ip == client_ip
            &&& lines[0].action == (if publish_time.le(cutoff) {
                delay_logger::DelayAction::Allowed
            } else {
                delay_logger::DelayAction::Denied
            })
        }),
{
}

/// The path of a file of a module, whatever the number of the module's pieces, is read
/// back to the module and the version.
#[verifier::rlimit(40)]
pub proof fn law_path_read_back(
    pieces: Seq<Seq<char>>,
    version: Seq<char>,
    endpoint: GomodEndpoint,
)
    requires
        pieces.len() >= 2,
        forall|i: int|
            0 <= i < pieces.len() ==> !(#[trigger] pieces[i]).contains('/') && pieces[i].len() > 0,
        version.len() > 0,
        !version.contains('/'),
        !".info"@.is_suffix_of(version),
        !".mod"@.is_suffix_of(version),
        !".zip"@.is_suffix_of(version),
        endpoint != GomodEndpoint::List,
        endpoint != GomodEndpoint::Latest,
    ensures
        ({
            let module = text::join(pieces, "/"@);
            let ending = match endpoint {
                GomodEndpoint::Info => ".info"@,
                GomodEndpoint::Mod => ".mod"@,
                _ => ".zip"@,
            };
            module_and_version("/gomod/"@ + module + "/@v/"@ + version + ending, endpoint) == Some(
                (module, version),
            )
        }),
{
    reveal_strlit(".info");
    reveal_strlit(".mod");
    reveal_strlit(".zip");
    let ending = match endpoint {
        GomodEndpoint::Info => ".info"@,
        GomodEndpoint::Mod => ".mod"@,
        _ => ".zip"@,
    };
    let file = version + ending;
    assert(!file.contains('/')) by {
        assert forall|i: int| 0 <= i < file.len() implies file[i] != '/' by {
            if i < version.len() {
                assert(version.contains(version[i]));
            }
        }
    }
    lemma_segments(pieces, file);
    let module = text::join(pieces, "/"@);
    assert("/gomod/"@ + module + "/@v/"@ + version + ending =~= "/gomod/"@ + module + "/@v/"@
        + file);
    text::law_trim_ending(version, ".info"@);
    text::law_trim_ending(version, ".mod"@);
    text::law_trim_ending(version, ".zip"@);
    let n = file.len() as int;
    if endpoint == GomodEndpoint::Mod {
        assert(file[n - 1] == 'd' && ".info"@[4] == 'o');
        assert(!".info"@.is_suffix_of(file));
        text::law_trim_ending(file, ".info"@);
    } else if endpoint == GomodEndpoint::Zip {
        assert(file[n - 1] == 'p' && ".info"@[4] == 'o' && ".mod"@[3] == 'd');
        assert(!".info"@.is_suffix_of(file));
        assert(!".mod"@.is_suffix_of(file));
        text::law_trim_ending(file, ".info"@);
        text::law_trim_ending(file, ".mod"@);
    }
}

/// The path of a list of versions, whatever the number of the module's pieces, is read
/// back to the module.
pub proof fn law_list_path_read_back(pieces: Seq<Seq<char>>)
    requires
        pieces.len() >= 2,
        forall|i: int|
            0 <= i < pieces.len() ==> !(#[trigger] pieces[i]).contains('/') && pieces[i].len() > 0,
    ensures
        ({
            let module = text::join(pieces, "/"@);
            &&& module_and_version("/gomod/"@ + module + "/@v/list"@, GomodEndpoint::List) == Some(
                (module, "list"@),
            )
            &&& module_and_version(
                "/gomod/"@ + module + "/@v/latest"@,
                GomodEndpoint::Latest,
            ) == Some((module, "latest"@))
        }),
{
    reveal_strlit("list");
    reveal_strlit("latest");
    reveal_strlit("/@v/");
    reveal_strlit("/@v/list");
    reveal_strlit("/@v/latest");
    let module = text::join(pieces, "/"@);
    lemma_segments(pieces, "list"@);
    lemma_segments(pieces, "latest"@);
    assert("/@v/list"@ =~= "/@v/"@ + "list"@);
    assert("/@v/latest"@ =~= "/@v/"@ + "latest"@);
    assert("/gomod/"@ + module + "/@v/list"@ =~= "/gomod/"@ + module + "/@v/"@ + "list"@);
    assert("/gomod/"@ + module + "/@v/latest"@ =~= "/gomod/"@ + module + "/@v/"@ + "latest"@);
}

proof fn lemma_segments(pieces: Seq<Seq<char>>, file: Seq<char>)
    requires
        pieces.len() >= 2,
        forall|i: int|
            0 <= i < pieces.len() ==> !(#[trigger] pieces[i]).contains('/') && pieces[i].len() > 0,
        file.len() > 0,
        !file.contains('/'),
    ensures
        ({
            let parts = text::segments(
                "/gomod/"@ + text::join(pieces, "/"@) + "/@v/"@ + file,
            );
            &&& parts.len() == pieces.len() + 3
            &&& parts.last() == file
            &&& parts.subrange(1, parts.len() - 2) == pieces
        }),
{
    reveal_strlit("/gomod/");
    reveal_strlit("gomod");
    reveal_strlit("/@v/");
    reveal_strlit("@v");
    reveal_strlit("/");
    let sep = seq!['/'];
    assert("/"@ =~= sep);
    let first = seq!["gomod"@];
    let last = seq!["@v"@, file];
    let parts = first + pieces + last;
    text::lemma_join_add(first, pieces, sep);
    text::lemma_join_add(first + pieces, last, sep);
    assert(text::join(first, sep) == "gomod"@);
    assert(last.drop_last() =~= seq!["@v"@]);
    assert(text::join(seq!["@v"@], sep) == "@v"@);
    assert(text::join(last, sep) =~= "@v"@ + sep + file);
    let module = text::join(pieces, sep);
    assert(sep + text::join(parts, sep) =~= "/gomod/"@ + module + "/@v/"@ + file);
    assert forall|i: int| 0 <= i < parts.len() implies !(#[trigger] parts[i]).contains('/')
        && parts[i].len() > 0 by {
        if i == 0 {
            assert(parts[i] == "gomod"@);
        } else if i < 1 + pieces.len() {
            assert(parts[i] == pieces[i - 1]);
        } else if i == 1 + pieces.len() {
            assert(parts[i] == "@v"@);
        } else {
            assert(parts[i] == file);
        }
    }
    text::law_segments(parts);
    assert(parts.subrange(1, parts.len() - 2) =~= pieces);
}

/// A path of fewer than five pieces names no module.
pub proof fn law_short_path(parts: Seq<Seq<char>>, endpoint: GomodEndpoint)
    requires
        0 < parts.len() < 5,
        forall|i: int|
            0 <= i < parts.len() ==> !(#[trigger] parts[i]).contains('/') && parts[i].len() > 0,
    ensures
        module_and_version(seq!['/'] + text::join(parts, seq!['/']), endpoint) is None,
{
    text::law_segments(parts);
}

/// The moment that a version without a tag is made of is the one between its base and
/// its revision, alone or behind a full stop.
pub proof fn law_pseudo_stamp(
    base: Seq<char>,
    mark: Seq<char>,
    stamp: Seq<char>,
    revision: Seq<char>,
)
    requires
        !mark.contains('-'),
        !revision.contains('-'),
        stamp.len() == 14,
        text::all_digits(stamp),
    ensures
        pseudo_stamp(base + seq!['-'] + stamp + seq!['-'] + revision) == Some(stamp),
        pseudo_stamp(base + seq!['-'] + (mark + seq!['.'] + stamp) + seq!['-'] + revision) == Some(
            stamp,
        ),
{
    assert(!stamp.contains('-') && !stamp.contains('.'));
    lemma_middle(base, stamp, revision);
    text::law_after_last(mark, stamp, '.');
    let middle = mark + seq!['.'] + stamp;
    assert forall|i: int| 0 <= i < middle.len() implies middle[i] != '-' by {
        if i < mark.len() {
            assert(mark.contains(mark[i]));
        } else if i > mark.len() {
            assert(stamp.contains(stamp[i - mark.len() - 1]));
        }
    }
    lemma_middle(base, middle, revision);
}

proof fn lemma_middle(base: Seq<char>, middle: Seq<char>, revision: Seq<char>)
    requires
        !middle.contains('-'),
        !revision.contains('-'),
    ensures
        ({
            let parts = text::split(base + seq!['-'] + middle + seq!['-'] + revision, '-');
            parts.len() >= 3 && parts[parts.len() - 2] == middle
        }),
{
    text::law_split_parts(base + seq!['-'] + middle, revision, '-');
    text::law_split_parts(base, middle, '-');
    text::lemma_split_nonempty(base, '-');
    text::law_join_split(seq![middle], '-');
    text::law_join_split(seq![revision], '-');
    assert(text::join(seq![middle], seq!['-']) == middle);
    assert(text::join(seq![revision], seq!['-']) == revision);
}

/// A version whose last piece but one does not end in fourteen digits holds no moment,
/// nor does one of fewer than three pieces.
pub proof fn law_no_stamp(base: Seq<char>, middle: Seq<char>, revision: Seq<char>)
    requires
        !middle.contains('-'),
        !revision.contains('-'),
    ensures
        text::after_last(middle, '.').len() != 14 || !text::all_digits(
            text::after_last(middle, '.'),
        ) ==> pseudo_stamp(base + seq!['-'] + middle + seq!['-'] + revision) is None,
        pseudo_stamp(middle + seq!['-'] + revision) is None,
        pseudo_stamp(revision) is None,
{
    lemma_middle(base, middle, revision);
    text::law_split_parts(middle, revision, '-');
    text::law_join_split(seq![middle], '-');
    text::law_join_split(seq![revision], '-');
    assert(text::join(seq![middle], seq!['-']) == middle);
    assert(text::join(seq![revision], seq!['-']) == revision);
}

/// The digits of a moment are year, month, day, hour, minute and second.
pub proof fn law_stamp_text(
    year: Seq<char>,
    month: Seq<char>,
    day: Seq<char>,
    hour: Seq<char>,
    minute: Seq<char>,
    second: Seq<char>,
)
    requires
        year.len() == 4,
        month.len() == 2,
        day.len() == 2,
        hour.len() == 2,
        minute.len() == 2,
        second.len() == 2,
    ensures
        stamp_text(year + month + day + hour + minute + second) == year + "-"@ + month + "-"@ + day
            + "T"@ + hour + ":"@ + minute + ":"@ + second + "Z"@,
{
    let stamp = year + month + day + hour + minute + second;
    assert(stamp.subrange(0, 4) =~= year);
    assert(stamp.subrange(4, 6) =~= month);
    assert(stamp.subrange(6, 8) =~= day);
    assert(stamp.subrange(8, 10) =~= hour);
    assert(stamp.subrange(10, 12) =~= minute);
    assert(stamp.subrange(12, 14) =~= second);
}

/// A version without a tag is dated by the moment that it holds.
pub proof fn law_pseudo_time(version: Seq<char>, stamp: Seq<char>, secs: i64, nanos: u32)
    requires
        pseudo_stamp(version) == Some(stamp),
    ensures
        pseudo_time(version) == Some(Timestamp { secs, nanos }) <==> timestamp::rfc3339_time(
            stamp.subrange(0, 4) + "-"@ + stamp.subrange(4, 6) + "-"@ + stamp.subrange(6, 8) + "T"@
                + stamp.subrange(8, 10) + ":"@ + stamp.subrange(10, 12) + ":"@ + stamp.subrange(
                12,
                14,
            ) + "Z"@,
        ) == Some((secs, nanos)),
{
}

/// The next letter of a path is written as it is if it is no capital; a capital becomes
/// a small letter, with a mark in front at the start of the path, behind a sign that is
/// no letter and behind a capital of another letter, and, behind a small letter, only at
/// the end of the path.
pub proof fn law_escape_next(path: Seq<char>, n: int)
    requires
        0 <= n < path.len(),
    ensures
        ({
            let marks = ascii_capitals(path);
            let c = path[n];
            let before = escape_to(path, marks, n);
            let after = escape_to(path, marks, n + 1);
            let capital = 'A' <= c <= 'Z';
            let small = (c as int + 32) as char;
            &&& !capital ==> after == before + seq![c]
            &&& capital && n == 0 ==> after == before + seq!['!', small]
            &&& capital && n > 0 ==> {
                let last = path[n - 1];
                &&& !('a' <= last <= 'z') && last != c ==> after == before + seq!['!', small]
                &&& last == c ==> after == before + seq![small]
                &&& 'a' <= last <= 'z' && n + 1 < path.len() ==> after == before + seq![small]
                &&& 'a' <= last <= 'z' && n + 1 == path.len() ==> after == before + seq![
                    '!',
                    small,
                ]
            }
        }),
{
    let marks = ascii_capitals(path);
    let c = path[n];
    let before = escape_to(path, marks, n);
    let after = escape_to(path, marks, n + 1);
    let small = (c as int + 32) as char;
    if !('A' <= c <= 'Z') {
        assert(after =~= before + seq![c]);
    } else {
        assert(text::ascii_lower(c) == small);
        assert(is_marked(path, marks, n) ==> after =~= before + seq!['!', small]);
        assert(!is_marked(path, marks, n) ==> after =~= before + seq![small]);
        if n > 0 && 'A' <= path[n - 1] <= 'Z' {
            let last = path[n - 1];
            assert(text::ascii_lower(last) as int == last as int + 32);
            assert(text::ascii_lower(c) as int == c as int + 32);
            assert((text::ascii_lower(last) == text::ascii_lower(c)) <==> last == c);
        }
    }
}

/// An escaped path is all of its letters, each written once, in order.
pub proof fn law_escape_whole(path: Seq<char>, capitals: Seq<bool>)
    ensures
        escape(path, capitals) == escape_to(path, capitals, path.len() as int),
        escape_to(path, capitals, 0) == Seq::<char>::empty(),
{
}

/// The capitals of an ASCII path are its letters from A to Z.
pub proof fn law_ascii_capitals(path: Seq<char>, i: int)
    requires
        0 <= i < path.len(),
    ensures
        ascii_capitals(path).len() == path.len(),
        ascii_capitals(path)[i] <==> 65 <= path[i] as int <= 90,
        capitals(path).len() == path.len(),
        capitals(path)[i] == text::uppercase(path[i]),
{
}

/// A file of a module whose version is old enough is served from the registry of its
/// kind, below the path of the module, the version and the ending of the file; the
/// information of a version that is at hand is served as it is.
#[verifier::rlimit(40)]
pub proof fn law_served_addresses(
    cutoff: Timestamp,
    publish_time: Timestamp,
    info_body: Seq<char>,
    module: Seq<char>,
    escaped: Seq<char>,
    version: Seq<char>,
    config: Config,
    days: i64,
)
    requires
        publish_time.le(cutoff),
    ensures
        ({
            let check = time_check(cutoff, publish_time, info_body);
            let registry = text::trim_end(config.gomod_registry@, '/');
            let downloads = text::trim_end(config.gomod_download_registry@, '/');
            let zip = action(check, module, escaped, version, config, days, GomodEndpoint::Zip);
            let info = action(check, module, escaped, version, config, days, GomodEndpoint::Info);
            let mods = action(check, module, escaped, version, config, days, GomodEndpoint::Mod);
            let latest = action(
                check,
                module,
                escaped,
                version,
                config,
                days,
                GomodEndpoint::Latest,
            );
            &&& zip == ActionView::ServeZip {
                primary_url: downloads + "/"@ + escaped + "/@v/"@ + version + ".zip"@,
                fallback_url: registry + "/"@ + escaped + "/@v/"@ + version + ".zip"@,
            }
            &&& mods == ActionView::Serve {
                url: registry + "/"@ + escaped + "/@v/"@ + version + ".mod"@,
            }
            &&& info_body.len() == 0 ==> info == ActionView::Serve {
                url: registry + "/"@ + escaped + "/@v/"@ + version + ".info"@,
            }
            &&& info_body.len() > 0 ==> {
                &&& info matches ActionView::Answer(reply)
                &&& reply.status == 200
                &&& reply.body == crate::reply::BodyView::Text(info_body)
                &&& reply.headers == seq![("Content-Type"@, "application/json"@)]
                &&& latest == info
            }
        }),
{
    let registry = text::trim_end(config.gomod_registry@, '/');
    let downloads = text::trim_end(config.gomod_download_registry@, '/');
    let path = "/@v/"@ + version;
    assert(downloads + "/"@ + escaped + (path + ".zip"@) =~= downloads + "/"@ + escaped + "/@v/"@
        + version + ".zip"@);
    assert(registry + "/"@ + escaped + (path + ".zip"@) =~= registry + "/"@ + escaped + "/@v/"@
        + version + ".zip"@);
    assert(registry + "/"@ + escaped + (path + ".mod"@) =~= registry + "/"@ + escaped + "/@v/"@
        + version + ".mod"@);
    assert(registry + "/"@ + escaped + (path + ".info"@) =~= registry + "/"@ + escaped + "/@v/"@
        + version + ".info"@);
    if info_body.len() > 0 {
        assert(served(GomodEndpoint::Info, info_body).headers =~= seq![
            ("Content-Type"@, "application/json"@),
        ]);
    }
}

/// The address of a file upstream is that of its registry, the path of the module, the
/// version and the ending.
pub proof fn law_upstream_url(
    escaped: Seq<char>,
    version: Seq<char>,
    config: Config,
    endpoint: GomodEndpoint,
)
    ensures
        upstream_url(escaped, version, config, endpoint) == text::trim_end(
            if endpoint == GomodEndpoint::Zip {
                config.gomod_download_registry@
            } else {
                config.gomod_registry@
            },
            '/',
        ) + "/"@ + escaped + "/@v/"@ + version + (match endpoint {
            GomodEndpoint::Info => ".info"@,
            GomodEndpoint::Mod => ".mod"@,
            GomodEndpoint::Zip => ".zip"@,
            GomodEndpoint::List => "list"@,
            GomodEndpoint::Latest => "latest"@,
        }),
{
    let base = text::trim_end(
        if endpoint == GomodEndpoint::Zip {
            config.gomod_download_registry@
        } else {
            config.gomod_registry@
        },
        '/',
    );
    assert(base + "/"@ + escaped + ("/@v/"@ + version + endpoint.ending()) =~= base + "/"@ + escaped
        + "/@v/"@ + version + endpoint.ending());
}

/// A module version that is too young is refused: the answer names the module, the
/// version, the reason and the moment of its release.
#[verifier::rlimit(40)]
pub proof fn law_refused_module(
    cutoff: Timestamp,
    publish_time: Timestamp,
    info_body: Seq<char>,
    module: Seq<char>,
    escaped: Seq<char>,
    version: Seq<char>,
    config: Config,
    days: i64,
    endpoint: GomodEndpoint,
)
    requires
        !publish_time.le(cutoff),
    ensures
        ({
            let published = timestamp::rfc3339_text(publish_time.secs, publish_time.nanos);
            &&& action(
                time_check(cutoff, publish_time, info_body),
                module,
                escaped,
                version,
                config,
                days,
                endpoint,
            ) matches ActionView::Answer(reply)
            &&& reply.status == 404
            &&& reply.body matches crate::reply::BodyView::Json(body)
            &&& body.get("error"@) == Some(JsonView::Str("Version too recent for access"@))
            &&& body.get("module"@) == Some(JsonView::Str(module))
            &&& body.get("requested_version"@) == Some(JsonView::Str(version))
            &&& body.get("reason"@) == Some(JsonView::Str(too_recent(days)))
            &&& body.get("publish_time"@) == Some(JsonView::Str(published))
            &&& reply.headers.len() == 4
            &&& reply.headers[0] == ("X-Delay-Original-Version"@, version)
            &&& reply.headers[2] == ("X-Delay-Publish-Time"@, published)
        }),
{
    reveal_strlit("error");
    reveal_strlit("module");
    reveal_strlit("requested_version");
    reveal_strlit("reason");
    reveal_strlit("publish_time");
    reveal_strlit("suggestion");
    assert("error"@.len() == 5 && "module"@.len() == 6 && "requested_version"@.len() == 17);
    assert("reason"@.len() == 6 && "publish_time"@.len() == 12 && "suggestion"@.len() == 10);
    assert("module"@[0] == 'm' && "reason"@[0] == 'r');
    let published = timestamp::rfc3339_text(publish_time.secs, publish_time.nanos);
    let a = JsonView::object();
    let e = JsonView::Str("Version too recent for access"@);
    let m = JsonView::Str(module);
    let v = JsonView::Str(version);
    let r = JsonView::Str(too_recent(days));
    let p = JsonView::Str(published);
    let s = JsonView::Str("Try again later or use an older version"@);
    let b = a.put("error"@, e);
    let c = b.put("module"@, m);
    let d = c.put("requested_version"@, v);
    let f = d.put("reason"@, r);
    let g = f.put("publish_time"@, p);
    crate::json::law_put_get(a, "error"@, e, "module"@);
    crate::json::law_put_get(b, "module"@, m, "error"@);
    crate::json::law_put_get(c, "requested_version"@, v, "error"@);
    crate::json::law_put_get(c, "requested_version"@, v, "module"@);
    crate::json::law_put_get(d, "reason"@, r, "error"@);
    crate::json::law_put_get(d, "reason"@, r, "module"@);
    crate::json::law_put_get(d, "reason"@, r, "requested_version"@);
    crate::json::law_put_get(f, "publish_time"@, p, "error"@);
    crate::json::law_put_get(f, "publish_time"@, p, "module"@);
    crate::json::law_put_get(f, "publish_time"@, p, "requested_version"@);
    crate::json::law_put_get(f, "publish_time"@, p, "reason"@);
    crate::json::law_put_get(g, "suggestion"@, s, "error"@);
    crate::json::law_put_get(g, "suggestion"@, s, "module"@);
    crate::json::law_put_get(g, "suggestion"@, s, "requested_version"@);
    crate::json::law_put_get(g, "suggestion"@, s, "reason"@);
    crate::json::law_put_get(g, "suggestion"@, s, "publish_time"@);
}

/// What is said of a module version that is not there, or of an error upstream, names
/// the module and the version, or the status.
pub proof fn law_error_members(module: Seq<char>, version: Seq<char>, status: u16)
    ensures
        not_found(module, version).get("module"@) == Some(JsonView::Str(module)),
        not_found(module, version).get("version"@) == Some(JsonView::Str(version)),
        not_found(module, version).get("error"@) == Some(JsonView::Str("Version not found"@)),
        upstream_error(status).get("status"@) == Some(
            JsonView::Number(text::decimal(status as int)),
        ),
        upstream_error(status).get("error"@) == Some(JsonView::Str("Upstream registry error"@)),
{
    reveal_strlit("error");
    reveal_strlit("module");
    reveal_strlit("version");
    reveal_strlit("status");
    assert("error"@.len() == 5 && "module"@.len() == 6 && "version"@.len() == 7);
    assert("status"@.len() == 6);
    let a = JsonView::object();
    let e = JsonView::Str("Version not found"@);
    let m = JsonView::Str(module);
    let v = JsonView::Str(version);
    let b = a.put("error"@, e);
    let c = b.put("module"@, m);
    crate::json::law_put_get(a, "error"@, e, "module"@);
    crate::json::law_put_get(b, "module"@, m, "error"@);
    crate::json::law_put_get(c, "version"@, v, "error"@);
    crate::json::law_put_get(c, "version"@, v, "module"@);
    let u = JsonView::Str("Upstream registry error"@);
    let n = JsonView::Number(text::decimal(status as int));
    let d = a.put("error"@, u);
    crate::json::law_put_get(a, "error"@, u, "status"@);
    crate::json::law_put_get(d, "status"@, n, "error"@);
}

/// What is answered where a module version is not known or upstream fails.
pub proof fn law_unknown_module(
    status: u16,
    module: Seq<char>,
    escaped: Seq<char>,
    version: Seq<char>,
    config: Config,
    days: i64,
    endpoint: GomodEndpoint,
)
    ensures
        action(ModuleCheckView::NotFound, module, escaped, version, config, days, endpoint) matches
            ActionView::Answer(reply) && reply.status == 404 && reply.body
            == crate::reply::BodyView::Json(not_found(module, version)),
        action(
            ModuleCheckView::UpstreamError(status),
            module,
            escaped,
            version,
            config,
            days,
            endpoint,
        ) matches ActionView::Answer(reply) && reply.status == status && reply.body
            == crate::reply::BodyView::Json(upstream_error(status)),
{
}

proof fn lemma_undenied_front(versions: Seq<Seq<char>>, denied: Seq<bool>, more: Seq<bool>)
    requires
        versions.len() <= denied.len(),
    ensures
        undenied(versions, denied + more) == undenied(versions, denied),
    decreases versions.len(),
{
    if versions.len() > 0 {
        lemma_undenied_front(versions.drop_last(), denied, more);
    }
}

/// What is left of two lists of versions, one behind the other, is what is left of each;
/// of a single version it is that version, unless it is denied.
pub proof fn law_list_order(
    a: Seq<Seq<char>>,
    denied_a: Seq<bool>,
    b: Seq<Seq<char>>,
    denied_b: Seq<bool>,
)
    requires
        a.len() == denied_a.len(),
        b.len() == denied_b.len(),
    ensures
        undenied(a + b, denied_a + denied_b) == undenied(a, denied_a) + undenied(b, denied_b),
        a.len() == 1 ==> undenied(a, denied_a) == (if denied_a[0] {
            Seq::empty()
        } else {
            a
        }),
    decreases b.len(),
{
    if a.len() == 1 {
        assert(undenied(a.drop_last(), denied_a) =~= Seq::empty());
        assert(undenied(a, denied_a) =~= (if denied_a[0] {
            Seq::empty()
        } else {
            a
        }));
    }
    if b.len() == 0 {
        assert(a + b =~= a);
        assert(denied_a + denied_b =~= denied_a);
        assert(undenied(a, denied_a) + undenied(b, denied_b) =~= undenied(a, denied_a));
    } else {
        let front = denied_b.drop_last();
        law_list_order(a, denied_a, b.drop_last(), front);
        assert((a + b).drop_last() =~= a + b.drop_last());
        assert((a + b).last() == b.last());
        let whole = denied_a + denied_b;
        let short = denied_a + front;
        assert(whole =~= short + seq![denied_b.last()]);
        lemma_undenied_front(a + b.drop_last(), short, seq![denied_b.last()]);
        assert(denied_b =~= front + seq![denied_b.last()]);
        lemma_undenied_front(b.drop_last(), front, seq![denied_b.last()]);
        assert(whole[(a + b).len() - 1] == denied_b[b.len() - 1]);
        assert(undenied(a + b, whole) =~= undenied(a, denied_a) + undenied(b, denied_b));
    }
}

/// A list is answered with one line for each version that is left, and nothing else.
pub proof fn law_list_lines(versions: Seq<Seq<char>>)
    requires
        versions.len() > 0,
        forall|i: int| 0 <= i < versions.len() ==> !(#[trigger] versions[i]).contains('\n'),
    ensures
        ({
            let reply = list_reply(versions);
            &&& reply.status == 200
            &&& reply.body matches crate::reply::BodyView::Text(body)
            &&& text::split(body, '\n') == versions
            &&& reply.headers[0] == ("Content-Type"@, "text/plain; charset=utf-8"@)
        }),
{
    reveal_strlit("\n");
    assert("\n"@ =~= seq!['\n']);
    text::law_join_split(versions, '\n');
}

/// A blocked line is written for each version that is denied, in order, and none else.
pub proof fn law_denial_lines(
    module: Seq<char>,
    versions: Seq<Seq<char>>,
    version: Seq<char>,
    denied: Seq<bool>,
    is_denied: bool,
    days: i64,
)
    requires
        versions.len() == denied.len(),
    ensures
        ({
            let before = denial_lines(module, versions, denied, days);
            let after = denial_lines(module, versions.push(version), denied.push(is_denied), days);
            &&& versions.len() == 0 ==> before.len() == 0
            &&& !is_denied ==> after == before
            &&& is_denied ==> after.len() == before.len() + 1 && after.drop_last() == before && {
                let line = after.last();
                &&& line.package_type == PackageType::GoMod
                &&& line.package_name == module
                &&& line.original_version == version
                &&& line.action == delay_logger::DelayAction::Denied
                &&& line.actual_version is None
                &&& line.reason == too_recent(days)
            }
        }),
{
    lemma_lines_front(module, versions, denied, seq![is_denied], days);
    assert(denied.push(is_denied) =~= denied + seq![is_denied]);
    assert(versions.push(version).drop_last() =~= versions);
    let before = denial_lines(module, versions, denied, days);
    let after = denial_lines(module, versions.push(version), denied.push(is_denied), days);
    if is_denied {
        assert(after.drop_last() =~= before);
    }
}

proof fn lemma_lines_front(
    module: Seq<char>,
    versions: Seq<Seq<char>>,
    denied: Seq<bool>,
    more: Seq<bool>,
    days: i64,
)
    requires
        versions.len() <= denied.len(),
    ensures
        denial_lines(module, versions, denied + more, days) == denial_lines(
            module,
            versions,
            denied,
            days,
        ),
    decreases versions.len(),
{
    if versions.len() > 0 {
        lemma_lines_front(module, versions.drop_last(), denied, more, days);
    }
}

/// The moment that a version is refused for is its own, and none for one that is allowed.
pub proof fn law_reject_time(
    times: Seq<(Seq<char>, Timestamp)>,
    cutoff: Timestamp,
    version: Seq<char>,
    t: Timestamp,
)
    requires
        crate::names::lookup(times, version) == Some(t),
    ensures
        crate::delay_check::check(times, cutoff, version) matches Ok(result) && reject_time(result)
            == (if t.le(cutoff) {
            None
        } else {
            Some(t)
        }),
        crate::delay_check::resolution(times, cutoff, version) matches Ok(result) && reject_time(
            result,
        ) == (if t.le(cutoff) {
            None
        } else {
            Some(t)
        }),
{
}

/// Each endpoint has its own ending and its own type.
pub proof fn law_endpoints()
    ensures
        GomodEndpoint::List.ending() == "list"@,
        GomodEndpoint::Latest.ending() == "latest"@,
        GomodEndpoint::Info.ending() == ".info"@,
        GomodEndpoint::Mod.ending() == ".mod"@,
        GomodEndpoint::Zip.ending() == ".zip"@,
        GomodEndpoint::List.served_type() == "text/plain; charset=utf-8"@,
        GomodEndpoint::Mod.served_type() == "text/plain; charset=utf-8"@,
        GomodEndpoint::Latest.served_type() == "application/json"@,
        GomodEndpoint::Info.served_type() == "application/json"@,
        GomodEndpoint::Zip.served_type() == "application/octet-stream"@,
{
}

/// What is served is the body as it came, with the type of its endpoint.
pub proof fn law_served(endpoint: GomodEndpoint, body: Seq<char>)
    ensures
        served(endpoint, body).status == 200,
        served(endpoint, body).body == crate::reply::BodyView::Text(body),
        served(endpoint, body).headers == seq![("Content-Type"@, endpoint.served_type())],
{
    assert(served(endpoint, body).headers =~= seq![("Content-Type"@, endpoint.served_type())]);
}

/// Of any letters that count as capitals, the next one is written in the same way: as it
/// is where it is none; else small, and marked as its neighbours demand.
pub proof fn law_escape_letter(path: Seq<char>, capitals: Seq<bool>, n: int)
    requires
        0 <= n < path.len(),
        capitals.len() == path.len(),
    ensures
        ({
            let before = escape_to(path, capitals, n);
            let after = escape_to(path, capitals, n + 1);
            let small = text::ascii_lower(path[n]);
            &&& !capitals[n] ==> after == before + seq![path[n]]
            &&& capitals[n] && n == 0 ==> after == before + seq!['!', small]
            &&& capitals[n] && n > 0 && capitals[n - 1] ==> after == before + (if small
                == text::ascii_lower(path[n - 1]) {
                seq![small]
            } else {
                seq!['!', small]
            })
            &&& capitals[n] && n > 0 && !capitals[n - 1] ==> after == before + (if 'a' <= path[n
                - 1] <= 'z' && n + 1 < path.len() {
                seq![small]
            } else {
                seq!['!', small]
            })
        }),
{
    let before = escape_to(path, capitals, n);
    let after = escape_to(path, capitals, n + 1);
    let small = text::ascii_lower(path[n]);
    assert(!capitals[n] ==> after =~= before + seq![path[n]]);
    assert(capitals[n] && is_marked(path, capitals, n) ==> after =~= before + seq!['!', small]);
    assert(capitals[n] && !is_marked(path, capitals, n) ==> after =~= before + seq![small]);
}

/// The refusal of a module version gives its reason, and is in JSON.
pub proof fn law_forbidden_headers(
    module: Seq<char>,
    version: Seq<char>,
    days: i64,
    published: Seq<char>,
)
    ensures
        forbidden(module, version, days, published).headers == seq![
            ("X-Delay-Original-Version"@, version),
            ("X-Delay-Reason"@, "Version published too recently, below delay threshold"@),
            ("X-Delay-Publish-Time"@, published),
            ("Content-Type"@, "application/json"@),
        ],
{
    assert(forbidden(module, version, days, published).headers =~= seq![
        ("X-Delay-Original-Version"@, version),
        ("X-Delay-Reason"@, "Version published too recently, below delay threshold"@),
        ("X-Delay-Publish-Time"@, published),
        ("Content-Type"@, "application/json"@),
    ]);
}

/// What is written down of a module version that was blocked gives the reason; of one
/// that is not known nothing is written down.
pub proof fn law_log_line(
    publish_time: Timestamp,
    status: u16,
    module: Seq<char>,
    version: Seq<char>,
    days: i64,
    client_ip: Option<Seq<char>>,
)
    ensures
        ({
            let lines = log_line(
                ModuleCheckView::Denied { publish_time },
                module,
                version,
                days,
                client_ip,
            );
            lines.len() == 1 && lines[0].reason == too_recent(days) && lines[0].actual_version
                is None
        }),
        log_line(ModuleCheckView::NotFound, module, version, days, client_ip).len() == 0,
        log_line(
            ModuleCheckView::UpstreamError(status),
            module,
            version,
            days,
            client_ip,
        ).len() == 0,
{
}

/// A path names the same module and version whichever of the files of a version is asked
/// for, and the same module whether the list or a file is.
pub proof fn law_same_path(path: Seq<char>)
    ensures
        module_and_version(path, GomodEndpoint::Info) == module_and_version(
            path,
            GomodEndpoint::Mod,
        ),
        module_and_version(path, GomodEndpoint::Info) == module_and_version(
            path,
            GomodEndpoint::Zip,
        ),
        module_and_version(path, GomodEndpoint::Info) is Some <==> module_and_version(
            path,
            GomodEndpoint::List,
        ) is Some,
        module_and_version(path, GomodEndpoint::Info) matches Some(found) ==> {
            &&& module_and_version(path, GomodEndpoint::List) == Some((found.0, "list"@))
            &&& module_and_version(path, GomodEndpoint::Latest) == Some((found.0, "latest"@))
        },
{
}

} // verus!
