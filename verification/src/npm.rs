//! NPM packages: the filtering of package metadata, and the answers of the
//! package endpoints.

use vstd::prelude::*;
use vstd::string::{StrSliceExecFns, StringExecFns};

use crate::config::Config;
use crate::delay_check::{
    self, CheckView, DelayCheckError, DelayChecker, ErrorView, VersionCheckResult, VersionTimeInfo,
};
use crate::delay_logger::{self, DelayLogEntry, DelayLogger, LogView, PackageType};
use crate::fetch::{self, MetadataFetch};
use crate::json::{self, Json, JsonView};
use crate::names;
use crate::pattern;
use crate::pypi_handler::{
    denial, denial_json, suggested_version, suggestion, too_recent, too_recent_text,
};
use crate::reply::{Reply, ReplyView};
use crate::text;
use crate::timestamp::Timestamp;

verus! {

/// The address under which a client reached the mirror, by the host that it
/// named.
pub fn get_base_url(host: &str) -> (r: String)
    ensures
        r@ == (if host@.len() == 0 {
            Seq::empty()
        } else {
            "https://"@ + host@
        }),
{
    if host.is_empty() {
        String::new()
    } else {
        "https://".to_owned().concat(host)
    }
}

/// The version that the matched groups of a file name give.
pub open spec fn captured_version(found: Option<Seq<Option<Seq<char>>>>) -> Option<Seq<char>> {
    match found {
        Some(groups) => pattern::group(groups, 1),
        None => None,
    }
}

/// The version that the matched groups of a file name give.
pub fn version_of_match(found: &Option<Vec<Option<String>>>) -> (r: Option<String>)
    ensures
        text::opt_view(r) == captured_version(pattern::match_view(*found)),
{
    match found {
        Some(groups) => match pattern::group_of(groups, 1) {
            Some(s) => Some(s.to_owned()),
            None => None,
        },
        None => None,
    }
}

/// The version in the file name of a tarball.
pub fn extract_version_from_filename(filename: &str) -> (r: Option<String>)
    ensures
        text::opt_view(r) == (if ".tgz"@.is_suffix_of(filename@) {
            captured_version(
                pattern::first_match(
                    r"-(\d+\.\d+\.\d+(?:-[\w\.]+)?(?:\+[\w\.]+)?)$"@,
                    filename@.take(filename@.len() - 4),
                ),
            )
        } else {
            None
        }),
{
    if !text::ends_with(filename, ".tgz") {
        return None;
    }
    proof {
        reveal_strlit(".tgz");
    }
    let end: usize = filename.unicode_len() - 4;
    proof {
        assert(filename@.subrange(0, end as int) =~= filename@.take(filename@.len() - 4));
    }
    let found = pattern::captures(
        r"-(\d+\.\d+\.\d+(?:-[\w\.]+)?(?:\+[\w\.]+)?)$",
        filename.substring_char(0, end),
    );
    version_of_match(&found)
}

/// Where the metadata of a package is found.
pub fn metadata_url(registry: &str, package: &str) -> (r: String)
    ensures
        r@ == registry@ + "/"@ + package@,
{
    registry.to_owned().concat("/").concat(package)
}

/// An error with details.
pub open spec fn detailed(status: u16, error: Seq<char>, details: Seq<char>) -> ReplyView {
    ReplyView::json(
        status,
        JsonView::object().put("error"@, JsonView::Str(error)).put(
            "details"@,
            JsonView::Str(details),
        ),
    )
}

fn detailed_reply(status: u16, error: &str, details: &str) -> (r: Reply)
    ensures
        r@ == detailed(status, error@, details@),
{
    Reply::json(
        status,
        Json::object().put("error", Json::string(error)).put("details", Json::string(details)),
    )
}

/// The metadata of a package, or the answer where it could not be had.
pub open spec fn fetched_metadata(package: Seq<char>, fetched: MetadataFetch) -> Result<
    JsonView,
    ReplyView,
> {
    match fetched {
        MetadataFetch::NotSent(e) => Err(
            detailed(502, "Failed to create upstream request"@, e@),
        ),
        MetadataFetch::NotAnswered(e) => Err(
            detailed(502, "Failed to connect to upstream registry"@, e@),
        ),
        _ => {
            let status = fetched.status()->0;
            if status == 404 {
                Err(
                    ReplyView::json(
                        404,
                        JsonView::object().put("error"@, JsonView::Str("Package not found"@)).put(
                            "package"@,
                            JsonView::Str(package),
                        ),
                    ),
                )
            } else if !fetch::success(status) {
                Err(
                    ReplyView::json(
                        502,
                        JsonView::object().put(
                            "error"@,
                            JsonView::Str("Upstream registry error"@),
                        ).put("status"@, JsonView::Number(text::decimal(status as int))),
                    ),
                )
            } else {
                match fetched {
                    MetadataFetch::Unreadable { error, .. } => Err(
                        detailed(500, "Failed to read upstream response"@, error@),
                    ),
                    MetadataFetch::Malformed { error, .. } => Err(
                        detailed(500, "Failed to parse package metadata"@, error@),
                    ),
                    MetadataFetch::Parsed { metadata, .. } => Ok(metadata@),
                    _ => arbitrary(),
                }
            }
        },
    }
}

fn status_error(package: &str, status: u16) -> (r: Option<Reply>)
    ensures
        match r {
            None => fetch::success(status),
            Some(reply) => if status == 404 {
                reply@ == ReplyView::json(
                    404,
                    JsonView::object().put("error"@, JsonView::Str("Package not found"@)).put(
                        "package"@,
                        JsonView::Str(package@),
                    ),
                )
            } else {
                !fetch::success(status) && reply@ == ReplyView::json(
                    502,
                    JsonView::object().put(
                        "error"@,
                        JsonView::Str("Upstream registry error"@),
                    ).put("status"@, JsonView::Number(text::decimal(status as int))),
                )
            },
        },
{
    if status == 404 {
        return Some(
            Reply::json(
                404,
                Json::object().put("error", Json::string("Package not found")).put(
                    "package",
                    Json::string(package),
                ),
            ),
        );
    }
    if !fetch::is_success(status) {
        return Some(
            Reply::json(
                502,
                Json::object().put("error", Json::string("Upstream registry error")).put(
                    "status",
                    Json::integer(status as i64),
                ),
            ),
        );
    }
    None
}

/// The metadata of a package from what came of asking for it, or the answer
/// where it could not be had.
pub fn fetch_package_metadata(package: &str, fetched: MetadataFetch) -> (r: Result<Json, Reply>)
    ensures
        match r {
            Ok(v) => fetched_metadata(package@, fetched) == Ok::<JsonView, ReplyView>(v@),
            Err(reply) => fetched_metadata(package@, fetched) == Err::<JsonView, ReplyView>(
                reply@,
            ),
        },
{
    match fetched {
        MetadataFetch::NotSent(e) => Err(
            detailed_reply(502, "Failed to create upstream request", e.as_str()),
        ),
        MetadataFetch::NotAnswered(e) => Err(
            detailed_reply(502, "Failed to connect to upstream registry", e.as_str()),
        ),
        MetadataFetch::Unreadable { status, error } => match status_error(package, status) {
            Some(reply) => Err(reply),
            None => Err(detailed_reply(500, "Failed to read upstream response", error.as_str())),
        },
        MetadataFetch::Malformed { status, error } => match status_error(package, status) {
            Some(reply) => Err(reply),
            None => Err(detailed_reply(500, "Failed to parse package metadata", error.as_str())),
        },
        MetadataFetch::Parsed { status, metadata } => match status_error(package, status) {
            Some(reply) => Err(reply),
            None => Ok(metadata),
        },
    }
}

/// The members of an object that is a member of another.
pub open spec fn inner_object(value: JsonView, key: Seq<char>) -> Option<
    Seq<(Seq<char>, JsonView)>,
> {
    match value.get(key) {
        Some(JsonView::Object(members)) => Some(members),
        _ => None,
    }
}

/// The members of an object that is a member of another.
pub fn object_at<'a>(value: &'a Json, key: &str) -> (r: Option<&'a Vec<(String, Json)>>)
    ensures
        match r {
            Some(m) => inner_object(value@, key@) == Some(json::members_view(m@)),
            None => inner_object(value@, key@) is None,
        },
{
    match value.get(key) {
        Some(v) => match v {
            Json::Object(members) => {
                proof {
                    json::lemma_object_view(*members);
                }
                Some(members)
            },
            _ => None,
        },
        None => None,
    }
}

/// Metadata with the versions that pass, and no others.
pub open spec fn keep_versions(metadata: JsonView, kept: Seq<Seq<char>>) -> JsonView {
    match inner_object(metadata, "versions"@) {
        Some(versions) => metadata.put(
            "versions"@,
            JsonView::Object(names::keep(versions, |v: Seq<char>| kept.contains(v))),
        ),
        None => metadata,
    }
}

/// Metadata with the newest of some versions as the latest one.
pub open spec fn set_latest(metadata: JsonView, kept: Seq<Seq<char>>) -> JsonView {
    match inner_object(metadata, "dist-tags"@) {
        Some(tags) => match delay_check::newest(kept) {
            Some(latest) => metadata.put(
                "dist-tags"@,
                JsonView::Object(names::put(tags, "latest"@, JsonView::Str(latest))),
            ),
            None => metadata,
        },
        None => metadata,
    }
}

/// Metadata that lists the given versions and no others, the newest of them as the
/// latest one.
pub open spec fn listing(metadata: JsonView, kept: Seq<Seq<char>>) -> JsonView {
    set_latest(keep_versions(metadata, kept), kept)
}

/// Metadata with the times of some versions, and no others.
pub open spec fn keep_times(metadata: JsonView, kept: Seq<Seq<char>>) -> JsonView {
    match inner_object(metadata, "time"@) {
        Some(times) => metadata.put(
            "time"@,
            JsonView::Object(
                names::keep(
                    times,
                    |v: Seq<char>| delay_check::is_bookkeeping(v) || kept.contains(v),
                ),
            ),
        ),
        None => metadata,
    }
}

/// Metadata with the given versions, and no others; as it is where there are
/// none.
pub open spec fn filtered(metadata: JsonView, kept: Seq<Seq<char>>) -> JsonView {
    if kept.len() == 0 {
        metadata
    } else {
        keep_times(listing(metadata, kept), kept)
    }
}

/// The times that metadata lists for its versions.
pub open spec fn metadata_times(metadata: JsonView) -> Result<
    Seq<(Seq<char>, Timestamp)>,
    ErrorView,
> {
    match metadata.get("time"@) {
        None => Err(ErrorView::MissingTimeField),
        Some(field) => delay_check::field_times(field),
    }
}

/// Lists in `metadata` the given versions and no others.
pub fn list_only(metadata: Json, kept: &Vec<String>) -> (r: Json)
    ensures
        r@ == listing(metadata@, text::views(kept@)),
{
    let ghost list = text::views(kept@);
    let mut m = metadata;
    let ghost start = m@;
    let versions = match object_at(&m, "versions") {
        Some(members) => {
            let keep = |v: &String| -> (b: bool)
                ensures
                    b == text::views(kept@).contains(v@),
                { text::list_has(kept, v.as_str()) };
            Some(json::retain(members, keep, Ghost(|v: Seq<char>| list.contains(v))))
        },
        None => None,
    };
    if let Some(members) = versions {
        proof {
            json::lemma_object_view(members);
        }
        m = m.put("versions", Json::Object(members));
    }
    proof {
        assert(m@ == keep_versions(start, list));
    }
    if let Some(tags) = object_at(&m, "dist-tags") {
        if let Some(latest) = delay_check::newest_of(kept) {
            proof {
                json::lemma_object_view(*tags);
            }
            let copy = json::copy_members(tags);
            proof {
                json::lemma_object_view(copy);
            }
            let updated = Json::Object(copy).put("latest", Json::Str(latest));
            m = m.put("dist-tags", updated);
        }
    }
    m
}

/// Leaves in `metadata` the given versions and no others; leaves it as it is
/// where there are none.
pub fn filter_to(metadata: Json, kept: &Vec<String>) -> (r: Json)
    ensures
        r@ == filtered(metadata@, text::views(kept@)),
{
    let ghost list = text::views(kept@);
    if kept.len() == 0 {
        return metadata;
    }
    let mut m = list_only(metadata, kept);
    let times = match object_at(&m, "time") {
        Some(members) => {
            let keep = |v: &String| -> (b: bool)
                ensures
                    b == (delay_check::is_bookkeeping(v@) || text::views(kept@).contains(v@)),
                {
                    text::same(v.as_str(), "created") || text::same(v.as_str(), "modified")
                        || text::list_has(kept, v.as_str())
                };
            Some(
                json::retain(
                    members,
                    keep,
                    Ghost(|v: Seq<char>| delay_check::is_bookkeeping(v) || list.contains(v)),
                ),
            )
        },
        None => None,
    };
    if let Some(members) = times {
        proof {
            json::lemma_object_view(members);
        }
        m = m.put("time", Json::Object(members));
    }
    m
}

/// Leaves in `metadata` only the versions that are old enough, and tells whether
/// there are none, in which case it is left as it is.
pub fn filter_versions_by_delay(metadata: &mut Json, checker: &DelayChecker) -> (r: Result<
    bool,
    DelayCheckError,
>)
    ensures
        match metadata_times(old(metadata)@) {
            Ok(times) => {
                let kept = delay_check::eligible(times, checker.cutoff());
                r == Ok::<bool, DelayCheckError>(kept.len() == 0) && final(metadata)@ == filtered(
                    old(metadata)@,
                    kept,
                )
            },
            Err(e) => r matches Err(got) && got@ == e && final(metadata)@ == old(metadata)@,
        },
{
    let time_info = match metadata.get("time") {
        None => {
            return Err(DelayCheckError::MissingTimeField);
        },
        Some(field) => match checker.parse_time_field(field) {
            Ok(info) => info,
            Err(e) => {
                return Err(e);
            },
        },
    };
    let kept = checker.eligible_versions(&time_info);
    proof {
        assert(text::views(kept@).len() == kept@.len());
    }
    let mut taken = Json::Null;
    std::mem::swap(&mut taken, metadata);
    *metadata = filter_to(taken, &kept);
    Ok(kept.len() == 0)
}


/// The members of metadata that filtering does not touch, and those that it
/// sets.
proof fn lemma_filtered_members(metadata: JsonView, kept: Seq<Seq<char>>, key: Seq<char>)
    requires
        metadata matches JsonView::Object(m) && names::in_order(m),
        kept.len() > 0,
    ensures
        filtered(metadata, kept) matches JsonView::Object(m) && names::in_order(m),
        key != "versions"@ && key != "dist-tags"@ && key != "time"@ ==> filtered(
            metadata,
            kept,
        ).get(key) == metadata.get(key),
        filtered(metadata, kept).get("versions"@) == keep_versions(metadata, kept).get(
            "versions"@,
        ),
        filtered(metadata, kept).get("dist-tags"@) == set_latest(metadata, kept).get(
            "dist-tags"@,
        ),
        filtered(metadata, kept).get("time"@) == keep_times(metadata, kept).get("time"@),
{
    reveal_strlit("versions");
    reveal_strlit("dist-tags");
    reveal_strlit("time");
    assert("versions"@.len() == 8 && "dist-tags"@.len() == 9 && "time"@.len() == 4);
    let a = keep_versions(metadata, kept);
    let b = set_latest(a, kept);
    lemma_member_set(metadata, a, "versions"@, key);
    lemma_member_set(metadata, a, "versions"@, "dist-tags"@);
    lemma_member_set(metadata, a, "versions"@, "time"@);
    lemma_member_set(a, b, "dist-tags"@, key);
    lemma_member_set(a, b, "dist-tags"@, "versions"@);
    lemma_member_set(a, b, "dist-tags"@, "time"@);
    let c = keep_times(b, kept);
    lemma_member_set(b, c, "time"@, key);
    lemma_member_set(b, c, "time"@, "versions"@);
    lemma_member_set(b, c, "time"@, "dist-tags"@);
    let plain_b = set_latest(metadata, kept);
    lemma_member_set(metadata, plain_b, "dist-tags"@, key);
    let plain_c = keep_times(metadata, kept);
    lemma_member_set(metadata, plain_c, "time"@, key);
}

/// An object in which one member was set or nothing was changed.
pub(crate) proof fn lemma_member_set(
    before: JsonView,
    after: JsonView,
    set: Seq<char>,
    key: Seq<char>,
)
    requires
        before matches JsonView::Object(m) && names::in_order(m),
        after == before || exists|v: JsonView| after == #[trigger] before.put(set, v),
    ensures
        after matches JsonView::Object(m) && names::in_order(m),
        key != set ==> after.get(key) == before.get(key),
        forall|v: JsonView| after == #[trigger] before.put(set, v) ==> after.get(set) == Some(v),
{
    let m = before->Object_0;
    assert forall|v: JsonView| after == #[trigger] before.put(set, v) implies after.get(set)
        == Some(v) && (key != set ==> after.get(key) == before.get(key)) && names::in_order(
        after->Object_0,
    ) by {
        names::lemma_put_lookup(m, set, v, key);
        names::lemma_put_order(m, set, v);
    }
}

/// Filtered metadata lists exactly the eligible ones of the versions that were
/// listed, each with what was said of it; its latest version is the newest
/// eligible one; and what is neither versions nor tags nor times is unchanged.
pub proof fn law_filtered_versions(
    metadata: JsonView,
    times: Seq<(Seq<char>, Timestamp)>,
    cutoff: Timestamp,
    version: Seq<char>,
    key: Seq<char>,
)
    requires
        metadata matches JsonView::Object(m) && names::in_order(m),
        names::in_order(times),
        delay_check::eligible(times, cutoff).len() > 0,
    ensures
        ({
            let kept = delay_check::eligible(times, cutoff);
            let after = filtered(metadata, kept);
            &&& inner_object(metadata, "versions"@) matches Some(listed) ==> {
                &&& inner_object(after, "versions"@) matches Some(left) && names::lookup(
                    left,
                    version,
                ) == (if names::lookup(times, version) matches Some(t) && t.le(cutoff) {
                    names::lookup(listed, version)
                } else {
                    None
                })
            }
            &&& inner_object(metadata, "dist-tags"@) matches Some(tags) ==> {
                names::in_order(tags) ==> {
                    &&& delay_check::newest(kept) matches Some(latest)
                    &&& inner_object(after, "dist-tags"@) matches Some(left)
                    &&& names::lookup(left, "latest"@) == Some(JsonView::Str(latest))
                    &&& names::lookup(times, latest) matches Some(t)
                    &&& t.le(cutoff)
                }
            }
            &&& key != "versions"@ && key != "dist-tags"@ && key != "time"@ ==> after.get(key)
                == metadata.get(key)
        }),
{
    let kept = delay_check::eligible(times, cutoff);
    lemma_filtered_members(metadata, kept, key);
    delay_check::law_eligible(times, cutoff, version);
    delay_check::law_newest(kept);
    let m = metadata->Object_0;
    if let Some(listed) = inner_object(metadata, "versions"@) {
        let passes = |v: Seq<char>| kept.contains(v);
        let left = JsonView::Object(names::keep(listed, passes));
        names::lemma_put_lookup(m, "versions"@, left, key);
        names::lemma_keep_lookup(listed, passes, version);
    }
    if let Some(tags) = inner_object(metadata, "dist-tags"@) {
        let latest = delay_check::newest(kept)->0;
        delay_check::law_eligible(times, cutoff, latest);
        let left = names::put(tags, "latest"@, JsonView::Str(latest));
        names::lemma_put_lookup(m, "dist-tags"@, JsonView::Object(left), key);
        if names::in_order(tags) {
            names::lemma_put_lookup(tags, "latest"@, JsonView::Str(latest), key);
        }
    }
}

/// The times of the members that are kept are the kept times.
proof fn lemma_kept_times(members: Seq<(Seq<char>, JsonView)>, kept: Seq<Seq<char>>)
    requires
        delay_check::member_times(members) is Ok,
    ensures
        names::in_order(delay_check::member_times(members)->Ok_0),
        delay_check::member_times(
            names::keep(
                members,
                |v: Seq<char>| delay_check::is_bookkeeping(v) || kept.contains(v),
            ),
        ) == Ok::<_, ErrorView>(
            names::keep(
                delay_check::member_times(members)->Ok_0,
                |v: Seq<char>| kept.contains(v),
            ),
        ),
    decreases members.len(),
{
    let wide = |v: Seq<char>| delay_check::is_bookkeeping(v) || kept.contains(v);
    let narrow = |v: Seq<char>| kept.contains(v);
    if members.len() > 0 {
        let front = members.drop_last();
        let (key, value) = members.last();
        lemma_kept_times(front, kept);
        let before = delay_check::member_times(front)->Ok_0;
        let some = names::keep(front, wide);
        if wide(key) {
            let all = names::keep(members, wide);
            assert(all.drop_last() =~= some);
            assert(all.last() == members.last());
        }
        if !delay_check::is_bookkeeping(key) {
            let t = delay_check::named_time(value)->0;
            names::lemma_put_order(before, key, t);
            names::lemma_keep_put(before, narrow, key, t);
        }
    } else {
        assert(names::keep(members, wide) =~= members);
        let none = Seq::<(Seq<char>, Timestamp)>::empty();
        assert(names::keep(none, narrow) =~= none);
    }
}

/// Keeping the times that are not after the cutoff leaves the same versions
/// eligible.
proof fn lemma_kept_eligible(
    times: Seq<(Seq<char>, Timestamp)>,
    cutoff: Timestamp,
    passes: spec_fn(Seq<char>) -> bool,
)
    requires
        forall|i: int| 0 <= i < times.len() ==> passes((#[trigger] times[i]).0) == times[i].1.le(
            cutoff,
        ),
    ensures
        delay_check::eligible(names::keep(times, passes), cutoff) == delay_check::eligible(
            times,
            cutoff,
        ),
    decreases times.len(),
{
    if times.len() > 0 {
        let front = times.drop_last();
        assert forall|i: int| 0 <= i < front.len() implies passes((#[trigger] front[i]).0)
            == front[i].1.le(cutoff) by {
            assert(front[i] == times[i]);
        }
        lemma_kept_eligible(front, cutoff, passes);
        let n = times.len() - 1;
        assert(passes(times[n].0) == times[n].1.le(cutoff));
        if passes(times.last().0) {
            let k = names::keep(times, passes);
            assert(k.drop_last() =~= names::keep(front, passes));
            assert(k.last() == times.last());
        }
    }
}

/// Filtering metadata that was filtered changes nothing: its times can still be
/// read, the same versions are eligible, and the result is the same.
pub proof fn law_filter_twice(
    metadata: JsonView,
    times: Seq<(Seq<char>, Timestamp)>,
    cutoff: Timestamp,
)
    requires
        metadata matches JsonView::Object(m) && names::in_order(m),
        inner_object(metadata, "dist-tags"@) matches Some(tags) ==> names::in_order(tags),
        metadata_times(metadata) == Ok::<_, ErrorView>(times),
    ensures
        ({
            let kept = delay_check::eligible(times, cutoff);
            let once = filtered(metadata, kept);
            metadata_times(once) matches Ok(left) && {
                &&& delay_check::eligible(left, cutoff) == kept
                &&& filtered(once, delay_check::eligible(left, cutoff)) == once
            }
        }),
{
    let kept = delay_check::eligible(times, cutoff);
    let once = filtered(metadata, kept);
    if kept.len() > 0 {
        let m = metadata->Object_0;
        let field = metadata.get("time"@)->0;
        let members = field->Object_0;
        let wide = |v: Seq<char>| delay_check::is_bookkeeping(v) || kept.contains(v);
        let narrow = |v: Seq<char>| kept.contains(v);
        lemma_filtered_members(metadata, kept, "time"@);
        lemma_kept_times(members, kept);
        names::lemma_put_lookup(
            m,
            "time"@,
            JsonView::Object(names::keep(members, wide)),
            "time"@,
        );
        let left = names::keep(times, narrow);
        assert forall|i: int| 0 <= i < times.len() implies narrow((#[trigger] times[i]).0)
            == times[i].1.le(cutoff) by {
            names::lemma_lookup_index(times, i);
            delay_check::law_eligible(times, cutoff, times[i].0);
        }
        lemma_kept_eligible(times, cutoff, narrow);
        assert(left.len() > 0) by {
            if left.len() == 0 {
                assert(delay_check::eligible(left, cutoff).len() == 0);
            }
        }
        assert(metadata_times(once) == Ok::<_, ErrorView>(left));
        let o = once->Object_0;
        assert(keep_versions(once, kept) == once) by {
            if let Some(listed) = inner_object(metadata, "versions"@) {
                let some = JsonView::Object(names::keep(listed, narrow));
                names::lemma_put_lookup(m, "versions"@, some, "versions"@);
                assert(once.get("versions"@) == Some(some));
                names::lemma_keep_twice(listed, narrow);
                names::lemma_put_same(o, "versions"@, some);
            } else {
                assert(once.get("versions"@) == metadata.get("versions"@));
            }
        }
        assert(set_latest(once, kept) == once) by {
            if let Some(tags) = inner_object(metadata, "dist-tags"@) {
                delay_check::law_newest(kept);
                let latest = JsonView::Str(delay_check::newest(kept)->0);
                let some = JsonView::Object(names::put(tags, "latest"@, latest));
                names::lemma_put_lookup(m, "dist-tags"@, some, "dist-tags"@);
                assert(once.get("dist-tags"@) == Some(some));
                names::lemma_put_order(tags, "latest"@, latest);
                names::lemma_put_lookup(tags, "latest"@, latest, "latest"@);
                names::lemma_put_same(names::put(tags, "latest"@, latest), "latest"@, latest);
                names::lemma_put_same(o, "dist-tags"@, some);
            } else {
                assert(once.get("dist-tags"@) == metadata.get("dist-tags"@));
            }
        }
        assert(keep_times(once, kept) == once) by {
            let some = JsonView::Object(names::keep(members, wide));
            assert(once.get("time"@) == Some(some));
            names::lemma_keep_twice(members, wide);
            names::lemma_put_same(o, "time"@, some);
        }
    }
}


/// What is said of a version, with the address of its tarball set where it has
/// one.
pub open spec fn with_tarball(version: JsonView, url: Seq<char>) -> JsonView {
    match version.get("dist"@) {
        Some(dist) => match dist.get_text("tarball"@) {
            Some(_) => version.put("dist"@, dist.put("tarball"@, JsonView::Str(url))),
            None => version,
        },
        None => version,
    }
}

/// Where the mirror serves a tarball.
pub open spec fn mirror_tarball(base_url: Seq<char>, package: Seq<char>, version: Seq<char>) -> Seq<
    char,
> {
    base_url + "/dl/"@ + package + "@"@ + version
}

/// The name that metadata gives its package.
pub open spec fn package_name(metadata: JsonView) -> Seq<char> {
    match metadata.get_text("name"@) {
        Some(name) => name,
        None => "unknown"@,
    }
}

/// Versions with the addresses of their tarballs on the mirror.
pub open spec fn mirrored_versions(
    versions: Seq<(Seq<char>, JsonView)>,
    base_url: Seq<char>,
    package: Seq<char>,
) -> Seq<(Seq<char>, JsonView)> {
    Seq::new(
        versions.len(),
        |i: int|
            (
                versions[i].0,
                with_tarball(
                    versions[i].1,
                    mirror_tarball(base_url, package, versions[i].0),
                ),
            ),
    )
}

/// Metadata in which the tarballs are those of the mirror.
pub open spec fn rewritten(metadata: JsonView, base_url: Seq<char>) -> JsonView {
    match inner_object(metadata, "versions"@) {
        Some(versions) => metadata.put(
            "versions"@,
            JsonView::Object(mirrored_versions(versions, base_url, package_name(metadata))),
        ),
        None => metadata,
    }
}

fn set_tarball(version: &Json, url: &str) -> (r: Json)
    ensures
        r@ == with_tarball(version@, url@),
{
    match version.get("dist") {
        Some(dist) => match dist.get_str("tarball") {
            Some(_) => {
                let updated = dist.clone().put("tarball", Json::string(url));
                version.clone().put("dist", updated)
            },
            None => version.clone(),
        },
        None => version.clone(),
    }
}

/// Metadata in which the tarballs are those of the mirror.
pub fn with_mirror_tarballs(metadata: Json, base_url: &str) -> (r: Json)
    ensures
        r@ == rewritten(metadata@, base_url@),
{
    let package = match metadata.get_str("name") {
        Some(name) => name.to_owned(),
        None => "unknown".to_owned(),
    };
    let updated = match object_at(&metadata, "versions") {
        Some(members) => {
            let ghost all = mirrored_versions(
                json::members_view(members@),
                base_url@,
                package@,
            );
            let mut list: Vec<(String, Json)> = Vec::new();
            let mut i: usize = 0;
            while i < members.len()
                invariant
                    i <= members@.len(),
                    all == mirrored_versions(
                        json::members_view(members@),
                        base_url@,
                        package@,
                    ),
                    json::members_view(list@) == all.take(i as int),
                decreases members@.len() - i,
            {
                let ghost before = json::members_view(list@);
                let url = base_url.to_owned().concat("/dl/").concat(package.as_str()).concat(
                    "@",
                ).concat(members[i].0.as_str());
                let version = set_tarball(&members[i].1, url.as_str());
                let ghost item = (members@[i as int].0@, version@);
                list.push((members[i].0.clone(), version));
                proof {
                    assert(item == all[i as int]);
                    assert(json::members_view(list@) =~= before.push(item));
                    assert(all.take(i + 1) =~= before.push(item));
                }
                i += 1;
            }
            proof {
                assert(all.take(all.len() as int) =~= all);
                json::lemma_object_view(list);
            }
            Some(Json::Object(list))
        },
        None => None,
    };
    match updated {
        Some(versions) => metadata.put("versions", versions),
        None => metadata,
    }
}

/// Lets the tarballs in `metadata` be those of the mirror.
pub fn rewrite_tarball_urls(metadata: &mut Json, base_url: &str, _registry_url: &str)
    ensures
        final(metadata)@ == rewritten(old(metadata)@, base_url@),
{
    let mut taken = Json::Null;
    std::mem::swap(&mut taken, metadata);
    *metadata = with_mirror_tarballs(taken, base_url);
}

/// Rewriting tarball addresses lists the same versions, and where it sets the
/// address of a tarball that is the one of the mirror.
pub proof fn law_rewritten_tarball(metadata: JsonView, base_url: Seq<char>, version: Seq<char>)
    requires
        metadata matches JsonView::Object(m) && names::in_order(m),
        inner_object(metadata, "versions"@) matches Some(versions) && names::in_order(versions)
            && names::lookup(versions, version) is Some,
        inner_object(metadata, "versions"@) matches Some(versions) && names::lookup(
            versions,
            version,
        ) matches Some(JsonView::Object(v)) ==> names::in_order(v) && (names::lookup(
            v,
            "dist"@,
        ) matches Some(JsonView::Object(d)) ==> names::in_order(d)),
    ensures
        inner_object(rewritten(metadata, base_url), "versions"@) matches Some(after)
            && inner_object(metadata, "versions"@) matches Some(before) && names::lookup(
            after,
            version,
        ) matches Some(new) && names::lookup(before, version) matches Some(old_one) && {
            match old_one.get("dist"@) {
                Some(dist) => if dist.get_text("tarball"@) is Some {
                    new.get("dist"@) matches Some(d) && d.get_text("tarball"@) == Some(
                        mirror_tarball(base_url, package_name(metadata), version),
                    )
                } else {
                    new == old_one
                },
                None => new == old_one,
            }
        },
{
    let m = metadata->Object_0;
    let before = inner_object(metadata, "versions"@)->0;
    let after = mirrored_versions(before, base_url, package_name(metadata));
    names::lemma_put_lookup(m, "versions"@, JsonView::Object(after), "versions"@);
    names::lemma_lookup_found(before, version);
    let value = names::lookup(before, version)->0;
    let k = choose|k: int| 0 <= k < before.len() && before[k] == (version, value);
    assert forall|i: int, j: int| 0 <= i < j < after.len() implies text::less(
        #[trigger] after[i].0,
        #[trigger] after[j].0,
    ) by {
        assert(after[i].0 == before[i].0 && after[j].0 == before[j].0);
    }
    names::lemma_lookup_index(after, k);
    assert(after[k].0 == version);
    let url = mirror_tarball(base_url, package_name(metadata), version);
    if let JsonView::Object(v) = value {
        if let Some(dist) = names::lookup(v, "dist"@) {
            let set = dist.put("tarball"@, JsonView::Str(url));
            names::lemma_put_lookup(v, "dist"@, set, "dist"@);
            if let JsonView::Object(d) = dist {
                names::lemma_put_lookup(d, "tarball"@, JsonView::Str(url), "tarball"@);
            }
        }
    }
}

/// Rewriting tarball addresses twice is rewriting them once.
pub proof fn law_rewrite_twice(metadata: JsonView, base_url: Seq<char>)
    requires
        metadata matches JsonView::Object(m) && names::in_order(m),
        inner_object(metadata, "versions"@) matches Some(versions) ==> forall|i: int|
            0 <= i < versions.len() ==> ((#[trigger] versions[i]).1 matches JsonView::Object(v)
                ==> names::in_order(v) && (names::lookup(v, "dist"@) matches Some(
                JsonView::Object(d),
            ) ==> names::in_order(d))),
    ensures
        rewritten(rewritten(metadata, base_url), base_url) == rewritten(metadata, base_url),
{
    reveal_strlit("versions");
    reveal_strlit("name");
    assert("versions"@.len() != "name"@.len());
    if let Some(before) = inner_object(metadata, "versions"@) {
        let package = package_name(metadata);
        let after = mirrored_versions(before, base_url, package);
        let once = rewritten(metadata, base_url);
        lemma_member_set(metadata, once, "versions"@, "name"@);
        assert(once == metadata.put("versions"@, JsonView::Object(after)));
        assert(package_name(once) == package);
        let twice = mirrored_versions(after, base_url, package);
        assert forall|i: int| 0 <= i < before.len() implies #[trigger] twice[i] == after[i] by {
            let url = mirror_tarball(base_url, package, before[i].0);
            if let JsonView::Object(v) = before[i].1 {
                if let Some(JsonView::Object(d)) = names::lookup(v, "dist"@) {
                    let set = names::put(d, "tarball"@, JsonView::Str(url));
                    names::lemma_put_lookup(d, "tarball"@, JsonView::Str(url), "tarball"@);
                    names::lemma_put_order(d, "tarball"@, JsonView::Str(url));
                    names::lemma_put_same(set, "tarball"@, JsonView::Str(url));
                    let dist = JsonView::Object(set);
                    names::lemma_put_lookup(v, "dist"@, dist, "dist"@);
                    names::lemma_put_order(v, "dist"@, dist);
                    names::lemma_put_same(names::put(v, "dist"@, dist), "dist"@, dist);
                }
            }
        }
        assert(twice =~= after);
        names::lemma_put_order(metadata->Object_0, "versions"@, JsonView::Object(after));
        names::lemma_put_lookup(
            metadata->Object_0,
            "versions"@,
            JsonView::Object(after),
            "versions"@,
        );
        names::lemma_put_same(once->Object_0, "versions"@, JsonView::Object(after));
    }
}

/// A plain error.
pub open spec fn plain_error(status: u16, error: Seq<char>) -> ReplyView {
    ReplyView::json(status, JsonView::object().put("error"@, JsonView::Str(error)))
}

fn plain_error_reply(status: u16, error: &str) -> (r: Reply)
    ensures
        r@ == plain_error(status, error@),
{
    Reply::json(status, Json::object().put("error", Json::string(error)))
}

/// The pieces of a path, without the slashes that it starts with.
pub open spec fn path_pieces(path: Seq<char>) -> Seq<Seq<char>> {
    text::split(text::trim_start(path, '/'), '/')
}

/// The piece of a path at an index, where it is there and not empty.
pub open spec fn piece(path: Seq<char>, i: int) -> Option<Seq<char>> {
    let pieces = path_pieces(path);
    if i < pieces.len() && pieces[i].len() > 0 {
        Some(pieces[i])
    } else {
        None
    }
}

fn piece_of(path: &str, i: usize) -> (r: Option<String>)
    ensures
        text::opt_view(r) == piece(path@, i as int),
{
    let pieces = text::split_text(text::trim_start_char(path, '/'), '/');
    proof {
        assert(text::views(pieces@).len() == pieces@.len());
    }
    if i < pieces.len() && !pieces[i].as_str().is_empty() {
        Some(pieces[i].clone())
    } else {
        None
    }
}

/// The package that a path asks for, or the answer where there is none.
pub fn metadata_request(path: &str) -> (r: Result<String, Reply>)
    ensures
        match r {
            Ok(package) => piece(path@, 1) == Some(package@),
            Err(reply) => piece(path@, 1) is None && reply@ == plain_error(
                400,
                "Package name is required"@,
            ),
        },
{
    match piece_of(path, 1) {
        Some(package) => Ok(package),
        None => Err(plain_error_reply(400, "Package name is required")),
    }
}

/// The answer with filtered metadata, given the times of its versions.
pub open spec fn filtered_reply(
    metadata: JsonView,
    kept: Seq<Seq<char>>,
    base_url: Seq<char>,
) -> ReplyView {
    let plain = ReplyView::json(200, rewritten(filtered(metadata, kept), base_url)).header(
        "Content-Type"@,
        "application/json"@,
    );
    if kept.len() == 0 {
        plain.header("X-Delay-Warning"@, "All versions are recent"@)
    } else {
        plain
    }
}

/// The answer with the metadata of a package.
pub open spec fn metadata_reply(metadata: JsonView, cutoff: Timestamp, base_url: Seq<char>) -> ReplyView {
    match metadata_times(metadata) {
        Ok(times) => filtered_reply(metadata, delay_check::eligible(times, cutoff), base_url),
        Err(ErrorView::MissingTimeField) => detailed(
            500,
            "Unable to determine version ages"@,
            "Package metadata does not contain a valid 'time' field"@,
        ),
        Err(e) => detailed(500, "Delay check failed"@, e.message()),
    }
}

/// The answer with the metadata of a package, given which of its versions are
/// kept.
pub fn reply_with_kept(metadata: Json, kept: &Vec<String>, base_url: &str) -> (r: Reply)
    ensures
        r@ == filtered_reply(metadata@, text::views(kept@), base_url@),
{
    let body = with_mirror_tarballs(filter_to(metadata, kept), base_url);
    let plain = Reply::json(200, body).header("Content-Type", "application/json");
    if kept.len() == 0 {
        plain.header("X-Delay-Warning", "All versions are recent")
    } else {
        plain
    }
}

/// The answer with the metadata of a package.
pub fn handle_npm_metadata(metadata: Json, checker: &DelayChecker, base_url: &str) -> (r: Reply)
    ensures
        r@ == metadata_reply(metadata@, checker.cutoff(), base_url@),
{
    let time_info = match metadata.get("time") {
        None => Err(DelayCheckError::MissingTimeField),
        Some(field) => checker.parse_time_field(field),
    };
    match time_info {
        Ok(info) => {
            let kept = checker.eligible_versions(&info);
            reply_with_kept(metadata, &kept, base_url)
        },
        Err(e) => {
            if let DelayCheckError::MissingTimeField = e {
                detailed_reply(
                    500,
                    "Unable to determine version ages",
                    "Package metadata does not contain a valid 'time' field",
                )
            } else {
                detailed_reply(500, "Delay check failed", e.to_string().as_str())
            }
        },
    }
}

/// The package and version that a path asks for, or the answer where one is
/// missing.
pub fn version_request(path: &str) -> (r: Result<(String, String), Reply>)
    ensures
        match r {
            Ok((package, version)) => piece(path@, 1) == Some(package@) && piece(path@, 2) == Some(
                version@,
            ),
            Err(reply) => if piece(path@, 1) is None {
                reply@ == plain_error(400, "Package name is required"@)
            } else {
                piece(path@, 2) is None && reply@ == plain_error(400, "Version is required"@)
            },
        },
{
    match piece_of(path, 1) {
        None => Err(plain_error_reply(400, "Package name is required")),
        Some(package) => match piece_of(path, 2) {
            None => Err(plain_error_reply(400, "Version is required")),
            Some(version) => Ok((package, version)),
        },
    }
}

/// What to do for a package request: answer, redirect, or pass on what a server
/// sends, with headers where there are any.
#[derive(Debug, PartialEq)]
pub enum PackageAction {
    Answer(Reply),
    Redirect { url: String },
    Proxy { url: String, headers: Vec<(String, String)> },
}

/// What an action says.
#[verifier::ext_equal]
pub enum PackageActionView {
    Answer(ReplyView),
    Redirect { url: Seq<char> },
    Proxy { url: Seq<char>, headers: Seq<(Seq<char>, Seq<char>)> },
}

impl View for PackageAction {
    type V = PackageActionView;

    open spec fn view(&self) -> PackageActionView {
        match self {
            PackageAction::Answer(r) => PackageActionView::Answer(r@),
            PackageAction::Redirect { url } => PackageActionView::Redirect { url: url@ },
            PackageAction::Proxy { url, headers } => PackageActionView::Proxy {
                url: url@,
                headers: crate::reply::headers_view(headers@),
            },
        }
    }
}

/// Where the tarball of a version is found upstream.
pub open spec fn tarball_url(
    registry: Seq<char>,
    package: Seq<char>,
    file: Seq<char>,
    version: Seq<char>,
) -> Seq<char> {
    registry + "/"@ + package + "/-/"@ + file + "-"@ + version + ".tgz"@
}

/// Where the tarball of a version is found upstream.
pub fn tarball_address(registry: &str, package: &str, file: &str, version: &str) -> (r: String)
    ensures
        r@ == tarball_url(registry@, package@, file@, version@),
{
    registry.to_owned().concat("/").concat(package).concat("/-/").concat(file).concat("-").concat(
        version,
    ).concat(".tgz")
}

/// The answer for a version that is withheld, and the version to take instead.
pub open spec fn withheld(
    package: Seq<char>,
    version: Seq<char>,
    days: i64,
    suggested: Option<Seq<char>>,
) -> ReplyView {
    let plain = ReplyView::json(
        403,
        denial(package, version, too_recent(days), suggested),
    ).header("X-Delay-Original-Version"@, version);
    let named = match suggested {
        Some(s) => plain.header("X-Delay-Suggested-Version"@, s),
        None => plain,
    };
    named.header("X-Delay-Reason"@, "Version published too recently, below delay threshold"@)
}

/// What is done for a version, given the times of all versions.
pub open spec fn version_action(
    config: Config,
    days: i64,
    cutoff: Timestamp,
    package: Seq<char>,
    version: Seq<char>,
    times: Seq<(Seq<char>, Timestamp)>,
) -> PackageActionView {
    match delay_check::check(times, cutoff, version) {
        Ok(CheckView::Allowed) => PackageActionView::Redirect {
            url: tarball_url(config.npm_download_registry@, package, package, version),
        },
        Ok(_) => PackageActionView::Answer(
            withheld(package, version, days, suggestion(times, cutoff, version)),
        ),
        Err(_) => PackageActionView::Answer(
            ReplyView::json(
                404,
                JsonView::object().put("error"@, JsonView::Str("Version not found"@)).put(
                    "package"@,
                    JsonView::Str(package),
                ).put("version"@, JsonView::Str(version)),
            ),
        ),
    }
}

/// The lines of the log for a version.
pub open spec fn version_lines(
    days: i64,
    cutoff: Timestamp,
    package: Seq<char>,
    version: Seq<char>,
    times: Seq<(Seq<char>, Timestamp)>,
    client_ip: Option<Seq<char>>,
) -> Seq<LogView> {
    match delay_check::check(times, cutoff, version) {
        Ok(CheckView::Denied { .. }) => {
            let blocked = LogView::blocked(
                PackageType::Npm,
                package,
                version,
                too_recent(days),
                client_ip,
            );
            match suggestion(times, cutoff, version) {
                Some(s) => seq![
                    blocked,
                    LogView::downgraded(
                        PackageType::Npm,
                        package,
                        version,
                        s,
                        "Version too recent, suggesting older alternative"@,
                        client_ip,
                    ),
                ],
                None => seq![blocked],
            }
        },
        Ok(_) => seq![LogView::allowed(PackageType::Npm, package, version, client_ip)],
        Err(_) => Seq::empty(),
    }
}

/// The lines of the log for a version that is too young.
fn log_withheld(
    checker: &DelayChecker,
    package: &str,
    version: &str,
    time_info: &VersionTimeInfo,
    client_ip: Option<&str>,
) -> (r: Vec<DelayLogEntry>)
    requires
        delay_check::check(time_info@, checker.cutoff(), version@) matches Ok(
            CheckView::Denied { .. },
        ),
    ensures
        delay_logger::all_dated(r@),
        delay_logger::log_views(r@) == version_lines(
            checker.days(),
            checker.cutoff(),
            package@,
            version@,
            time_info@,
            text::slice_view(client_ip),
        ),
{
    let logger = DelayLogger::new();
    let reason = too_recent_text(checker.delay_days());
    let blocked = logger.log_blocked(
        PackageType::Npm,
        package,
        version,
        reason.as_str(),
        client_ip,
    );
    let ghost first = blocked@;
    let mut logs = delay_logger::one_entry(blocked);
    if let Some(s) = suggested_version(checker, version, time_info) {
        let line = logger.log_downgraded(
            PackageType::Npm,
            package,
            version,
            s.as_str(),
            "Version too recent, suggesting older alternative",
            client_ip,
        );
        let ghost second = line@;
        let ghost before = logs@;
        logs.push(line);
        proof {
            assert(before.len() == delay_logger::log_views(before).len());
            assert(delay_logger::log_views(before)[0] == first);
            assert(delay_logger::log_views(logs@) =~= seq![first, second]);
        }
    }
    logs
}

/// The lines of the log for a version, given the times of all versions.
pub fn log_version(
    checker: &DelayChecker,
    package: &str,
    version: &str,
    time_info: &VersionTimeInfo,
    client_ip: Option<&str>,
) -> (r: Vec<DelayLogEntry>)
    ensures
        delay_logger::all_dated(r@),
        delay_logger::log_views(r@) == version_lines(
            checker.days(),
            checker.cutoff(),
            package@,
            version@,
            time_info@,
            text::slice_view(client_ip),
        ),
{
    match checker.check_version(version, time_info) {
        Ok(VersionCheckResult::Allowed) => delay_logger::one_entry(
            DelayLogger::new().log_allowed(PackageType::Npm, package, version, client_ip),
        ),
        Ok(_) => log_withheld(checker, package, version, time_info, client_ip),
        Err(_) => delay_logger::no_entries(),
    }
}

/// Decides what is done for a version, given the times of all versions.
pub fn decide_version(
    config: &Config,
    checker: &DelayChecker,
    package: &str,
    version: &str,
    time_info: &VersionTimeInfo,
    client_ip: Option<&str>,
) -> (r: (PackageAction, Vec<DelayLogEntry>))
    ensures
        delay_logger::all_dated(r.1@),
        r.0@ == version_action(
            *config,
            checker.days(),
            checker.cutoff(),
            package@,
            version@,
            time_info@,
        ),
        delay_logger::log_views(r.1@) == version_lines(
            checker.days(),
            checker.cutoff(),
            package@,
            version@,
            time_info@,
            text::slice_view(client_ip),
        ),
{
    let logs = log_version(checker, package, version, time_info, client_ip);
    match checker.check_version(version, time_info) {
        Ok(VersionCheckResult::Allowed) => {
            let url = tarball_address(
                config.npm_download_registry.as_str(),
                package,
                package,
                version,
            );
            (PackageAction::Redirect { url }, logs)
        },
        Ok(_) => {
            let suggested = suggested_version(checker, version, time_info);
            let reason = too_recent_text(checker.delay_days());
            let mut reply = Reply::json(
                403,
                denial_json(package, version, reason.as_str(), &suggested),
            ).header("X-Delay-Original-Version", version);
            if let Some(s) = &suggested {
                reply = reply.header("X-Delay-Suggested-Version", s.as_str());
            }
            let answer = reply.header(
                "X-Delay-Reason",
                "Version published too recently, below delay threshold",
            );
            (PackageAction::Answer(answer), logs)
        },
        Err(_) => {
            let body = Json::object().put("error", Json::string("Version not found")).put(
                "package",
                Json::string(package),
            ).put("version", Json::string(version));
            (PackageAction::Answer(Reply::json(404, body)), logs)
        },
    }
}

/// The times of versions that metadata lists, or the answer where they cannot be
/// had.
pub open spec fn times_or_reply(metadata: JsonView) -> Result<
    Seq<(Seq<char>, Timestamp)>,
    ReplyView,
> {
    match metadata.get("time"@) {
        None => Err(
            detailed(
                500,
                "Unable to determine version age"@,
                "Package metadata does not contain a valid 'time' field"@,
            ),
        ),
        Some(field) => match delay_check::field_times(field) {
            Ok(times) => Ok(times),
            Err(e) => Err(
                detailed(500, "Failed to parse version timing information"@, e.message()),
            ),
        },
    }
}

/// The times of versions that metadata lists, or the answer where they cannot be
/// had.
pub fn version_times(metadata: &Json, checker: &DelayChecker) -> (r: Result<
    VersionTimeInfo,
    Reply,
>)
    ensures
        match r {
            Ok(info) => times_or_reply(metadata@) == Ok::<_, ReplyView>(info@),
            Err(reply) => times_or_reply(metadata@) == Err::<Seq<(Seq<char>, Timestamp)>, _>(
                reply@,
            ),
        },
{
    match metadata.get("time") {
        None => Err(
            detailed_reply(
                500,
                "Unable to determine version age",
                "Package metadata does not contain a valid 'time' field",
            ),
        ),
        Some(field) => match checker.parse_time_field(field) {
            Ok(info) => Ok(info),
            Err(e) => Err(
                detailed_reply(
                    500,
                    "Failed to parse version timing information",
                    e.to_string().as_str(),
                ),
            ),
        },
    }
}

/// Decides what is done for a version of a package, given the metadata of the
/// package.
pub fn handle_npm_version(
    config: &Config,
    checker: &DelayChecker,
    package: &str,
    version: &str,
    metadata: &Json,
    client_ip: Option<&str>,
) -> (r: (PackageAction, Vec<DelayLogEntry>))
    ensures
        delay_logger::all_dated(r.1@),
        match times_or_reply(metadata@) {
            Err(reply) => r.0@ == PackageActionView::Answer(reply) && r.1@.len() == 0,
            Ok(times) => {
                &&& r.0@ == version_action(
                    *config,
                    checker.days(),
                    checker.cutoff(),
                    package@,
                    version@,
                    times,
                )
                &&& delay_logger::log_views(r.1@) == version_lines(
                    checker.days(),
                    checker.cutoff(),
                    package@,
                    version@,
                    times,
                    text::slice_view(client_ip),
                )
            },
        },
{
    match version_times(metadata, checker) {
        Err(reply) => (PackageAction::Answer(reply), Vec::new()),
        Ok(info) => decide_version(config, checker, package, version, &info, client_ip),
    }
}

/// The identifier of a tarball in a download path.
pub open spec fn raw_id(path: Seq<char>) -> Option<Seq<char>> {
    let pieces = path_pieces(path);
    if pieces.len() > 2 {
        Some(text::join(pieces.subrange(1, pieces.len() as int), "/"@))
    } else {
        piece(path, 1)
    }
}

/// The package and version that an identifier names: what stands before and
/// after its last `@`, neither of them empty.
pub open spec fn id_parts(id: Seq<char>) -> Option<(Seq<char>, Seq<char>)> {
    let version = text::after_last(id, '@');
    let at = id.len() - version.len() - 1;
    if at <= 0 || version.len() == 0 {
        None
    } else {
        Some((id.take(at), version))
    }
}

/// The package and version that an identifier names.
pub fn split_id(id: &str) -> (r: Option<(String, String)>)
    ensures
        match r {
            Some((package, version)) => id_parts(id@) == Some((package@, version@)),
            None => id_parts(id@) is None,
        },
{
    let version = text::last_piece(id, '@');
    let n: usize = id.unicode_len();
    let m: usize = version.unicode_len();
    proof {
        text::lemma_after_last(id@, '@');
    }
    if m > 0 && n > 1 && m < n - 1 {
        proof {
            assert(id@.subrange(0, n - m - 1) =~= id@.take(n - m - 1));
        }
        return Some((id.substring_char(0, n - m - 1).to_owned(), version.to_owned()));
    }
    None
}

/// An identifier made of a package and a version names them, as long as neither
/// is empty and the version has no `@`. So the address of a tarball on the mirror
/// is read back as the version that it was made for.
pub proof fn law_id_read_back(package: Seq<char>, version: Seq<char>)
    requires
        package.len() > 0,
        version.len() > 0,
        !version.contains('@'),
    ensures
        id_parts(package + "@"@ + version) == Some((package, version)),
{
    reveal_strlit("@");
    let id = package + "@"@ + version;
    let at = package.len() as int;
    text::lemma_after_last(id, '@');
    let found = text::after_last(id, '@');
    let start = id.len() - found.len();
    assert(id[at] == '@');
    if start <= at {
        assert(found[at - start] == '@');
        assert(found.contains('@'));
    } else if start > at + 1 {
        assert(id[start - 1] == version[start - at - 2]);
        assert(version.contains('@'));
    }
    assert(found =~= version);
    assert(id.take(at) =~= package);
}

/// The answer for an identifier that names no package and version.
pub open spec fn bad_id(id: Seq<char>) -> ReplyView {
    let version = text::after_last(id, '@');
    let expected = if id.len() > 1 && version.len() == id.len() - 1 {
        "/dl/{package}@{version} or /dl/{@scope/package}@{version}"@
    } else {
        "/dl/{package}@{version}"@
    };
    ReplyView::json(
        400,
        JsonView::object().put("error"@, JsonView::Str("Invalid package identifier format"@)).put(
            "expected"@,
            JsonView::Str(expected),
        ).put("got"@, JsonView::Str(id)),
    )
}

/// The package and version that a download path asks for, or the answer where it
/// names none.
pub fn download_request(path: &str) -> (r: Result<(String, String), Reply>)
    ensures
        match r {
            Ok((package, version)) => raw_id(path@) matches Some(id) && id_parts(id) == Some(
                (package@, version@),
            ),
            Err(reply) => match raw_id(path@) {
                None => reply@ == plain_error(
                    400,
                    "Package identifier is required. Use /dl/{package@{version}"@,
                ),
                Some(id) => id_parts(id) is None && reply@ == bad_id(id),
            },
        },
{
    let pieces = text::split_text(text::trim_start_char(path, '/'), '/');
    proof {
        assert(text::views(pieces@).len() == pieces@.len());
    }
    let id = if pieces.len() > 2 {
        text::join_range(&pieces, 1, pieces.len(), "/")
    } else {
        match piece_of(path, 1) {
            Some(p) => p,
            None => {
                return Err(
                    plain_error_reply(
                        400,
                        "Package identifier is required. Use /dl/{package@{version}",
                    ),
                );
            },
        }
    };
    if let Some(parts) = split_id(id.as_str()) {
        return Ok(parts);
    }
    let version = text::last_piece(id.as_str(), '@');
    let n: usize = id.as_str().unicode_len();
    let m: usize = version.unicode_len();
    let expected = if n > 1 && m == n - 1 {
        "/dl/{package}@{version} or /dl/{@scope/package}@{version}"
    } else {
        "/dl/{package}@{version}"
    };
    Err(
        Reply::json(
            400,
            Json::object().put("error", Json::string("Invalid package identifier format")).put(
                "expected",
                Json::string(expected),
            ).put("got", Json::string(id.as_str())),
        ),
    )
}

/// The name under which the tarballs of a package are filed: without its scope.
pub open spec fn tarball_name(package: Seq<char>) -> Seq<char> {
    if package.len() > 0 && package[0] == '@' {
        text::after_last(package, '/')
    } else {
        package
    }
}

fn tarball_name_of<'a>(package: &'a str) -> (r: &'a str)
    ensures
        r@ == tarball_name(package@),
{
    if !package.is_empty() && package.get_char(0) == '@' {
        text::last_piece(package, '/')
    } else {
        package
    }
}

/// The reason why a version is withheld for which nothing can stand in.
pub open spec fn no_alternative(days: i64) -> Seq<char> {
    "Version was published within the last "@ + text::decimal(days as int)
        + " day(s) and no older alternative is available"@
}

/// What is done for a download, given the times of all versions.
pub open spec fn download_action(
    config: Config,
    days: i64,
    cutoff: Timestamp,
    package: Seq<char>,
    version: Seq<char>,
    times: Seq<(Seq<char>, Timestamp)>,
) -> PackageActionView {
    let registry = config.npm_download_registry@;
    match delay_check::resolution(times, cutoff, version) {
        Ok(CheckView::Allowed) => PackageActionView::Proxy {
            url: tarball_url(registry, package, tarball_name(package), version),
            headers: Seq::empty(),
        },
        Ok(CheckView::Downgraded { suggested_version, .. }) => PackageActionView::Proxy {
            url: tarball_url(registry, package, tarball_name(package), suggested_version),
            headers: seq![
                ("X-Delay-Original-Version"@, version),
                ("X-Delay-Redirected-Version"@, suggested_version),
                ("X-Delay-Reason"@, "Version too recent, auto-downgraded for security"@),
            ],
        },
        Ok(CheckView::Denied { .. }) => PackageActionView::Answer(
            ReplyView::json(
                403,
                denial(
                    package,
                    version,
                    no_alternative(days),
                    suggestion(times, cutoff, version),
                ),
            ),
        ),
        Err(_) => PackageActionView::Answer(
            ReplyView::json(
                404,
                JsonView::object().put(
                    "error"@,
                    JsonView::Str("Version not found in package metadata"@),
                ).put("package"@, JsonView::Str(package)).put("version"@, JsonView::Str(version)),
            ),
        ),
    }
}

/// The lines of the log for a download.
pub open spec fn download_lines(
    days: i64,
    cutoff: Timestamp,
    package: Seq<char>,
    version: Seq<char>,
    times: Seq<(Seq<char>, Timestamp)>,
    client_ip: Option<Seq<char>>,
) -> Seq<LogView> {
    match delay_check::resolution(times, cutoff, version) {
        Ok(CheckView::Downgraded { suggested_version, .. }) => seq![
            LogView::downgraded(
                PackageType::Npm,
                package,
                version,
                suggested_version,
                "Version too recent, auto-downgraded for security"@,
                client_ip,
            ),
        ],
        Ok(CheckView::Denied { .. }) => seq![
            LogView::blocked(PackageType::Npm, package, version, no_alternative(days), client_ip),
        ],
        Ok(CheckView::Allowed) => seq![
            LogView::allowed(PackageType::Npm, package, version, client_ip),
        ],
        Err(_) => Seq::empty(),
    }
}

/// Decides what is done for a download, given the times of all versions.
pub fn decide_download(
    config: &Config,
    checker: &DelayChecker,
    package: &str,
    version: &str,
    time_info: &VersionTimeInfo,
    client_ip: Option<&str>,
) -> (r: (PackageAction, Vec<DelayLogEntry>))
    ensures
        delay_logger::all_dated(r.1@),
        r.0@ == download_action(
            *config,
            checker.days(),
            checker.cutoff(),
            package@,
            version@,
            time_info@,
        ),
        delay_logger::log_views(r.1@) == download_lines(
            checker.days(),
            checker.cutoff(),
            package@,
            version@,
            time_info@,
            text::slice_view(client_ip),
        ),
{
    let logger = DelayLogger::new();
    let registry = config.npm_download_registry.as_str();
    match checker.resolve_version(version, time_info) {
        Ok(VersionCheckResult::Allowed) => {
            let url = tarball_address(registry, package, tarball_name_of(package), version);
            let headers: Vec<(String, String)> = Vec::new();
            proof {
                assert(crate::reply::headers_view(headers@) =~= Seq::empty());
            }
            let line = logger.log_allowed(PackageType::Npm, package, version, client_ip);
            (PackageAction::Proxy { url, headers }, delay_logger::one_entry(line))
        },
        Ok(VersionCheckResult::Downgraded { suggested_version, .. }) => {
            let suggested = suggested_version.as_str();
            let url = tarball_address(registry, package, tarball_name_of(package), suggested);
            let line = logger.log_downgraded(
                PackageType::Npm,
                package,
                version,
                suggested,
                "Version too recent, auto-downgraded for security",
                client_ip,
            );
            let mut headers: Vec<(String, String)> = Vec::new();
            headers.push(("X-Delay-Original-Version".to_owned(), version.to_owned()));
            headers.push(("X-Delay-Redirected-Version".to_owned(), suggested.to_owned()));
            headers.push(
                (
                    "X-Delay-Reason".to_owned(),
                    "Version too recent, auto-downgraded for security".to_owned(),
                ),
            );
            proof {
                assert(crate::reply::headers_view(headers@) =~= seq![
                    ("X-Delay-Original-Version"@, version@),
                    ("X-Delay-Redirected-Version"@, suggested@),
                    ("X-Delay-Reason"@, "Version too recent, auto-downgraded for security"@),
                ]);
            }
            (PackageAction::Proxy { url, headers }, delay_logger::one_entry(line))
        },
        Ok(VersionCheckResult::Denied { .. }) => {
            let suggested = suggested_version(checker, version, time_info);
            let reason = "Version was published within the last ".to_owned().concat(
                text::decimal_text(checker.delay_days()).as_str(),
            ).concat(" day(s) and no older alternative is available");
            let line = logger.log_blocked(
                PackageType::Npm,
                package,
                version,
                reason.as_str(),
                client_ip,
            );
            let body = denial_json(package, version, reason.as_str(), &suggested);
            (PackageAction::Answer(Reply::json(403, body)), delay_logger::one_entry(line))
        },
        Err(_) => {
            let body = Json::object().put(
                "error",
                Json::string("Version not found in package metadata"),
            ).put("package", Json::string(package)).put("version", Json::string(version));
            (PackageAction::Answer(Reply::json(404, body)), delay_logger::no_entries())
        },
    }
}

/// Decides what is done for a download, given the metadata of the package.
pub fn handle_npm_download(
    config: &Config,
    checker: &DelayChecker,
    package: &str,
    version: &str,
    metadata: &Json,
    client_ip: Option<&str>,
) -> (r: (PackageAction, Vec<DelayLogEntry>))
    ensures
        delay_logger::all_dated(r.1@),
        match times_or_reply(metadata@) {
            Err(reply) => r.0@ == PackageActionView::Answer(reply) && r.1@.len() == 0,
            Ok(times) => {
                &&& r.0@ == download_action(
                    *config,
                    checker.days(),
                    checker.cutoff(),
                    package@,
                    version@,
                    times,
                )
                &&& delay_logger::log_views(r.1@) == download_lines(
                    checker.days(),
                    checker.cutoff(),
                    package@,
                    version@,
                    times,
                    text::slice_view(client_ip),
                )
            },
        },
{
    match version_times(metadata, checker) {
        Err(reply) => (PackageAction::Answer(reply), Vec::new()),
        Ok(info) => decide_download(config, checker, package, version, &info, client_ip),
    }
}

/// A download is never served a version that is too young: what is passed on is
/// the tarball of a version that is old enough.
pub proof fn law_download_old_enough(
    config: Config,
    days: i64,
    cutoff: Timestamp,
    package: Seq<char>,
    version: Seq<char>,
    times: Seq<(Seq<char>, Timestamp)>,
)
    requires
        names::in_order(times),
        download_action(config, days, cutoff, package, version, times) is Proxy,
    ensures
        exists|served: Seq<char>|
            {
                &&& download_action(
                    config,
                    days,
                    cutoff,
                    package,
                    version,
                    times,
                )->Proxy_url == tarball_url(
                    config.npm_download_registry@,
                    package,
                    tarball_name(package),
                    served,
                )
                &&& #[trigger] names::lookup(times, served) matches Some(t) && t.le(cutoff)
            },
{
    match delay_check::resolution(times, cutoff, version) {
        Ok(CheckView::Downgraded { suggested_version, .. }) => {
            delay_check::law_downgraded(times, cutoff, version);
            assert(names::lookup(times, suggested_version) is Some);
        },
        _ => {
            assert(names::lookup(times, version) is Some);
        },
    }
}

/// A listed version that is too young is refused; if any version is old enough,
/// the refusal names the newest of those, and else it names none.
pub proof fn law_refused_version(
    config: Config,
    days: i64,
    cutoff: Timestamp,
    package: Seq<char>,
    version: Seq<char>,
    times: Seq<(Seq<char>, Timestamp)>,
)
    requires
        names::in_order(times),
        names::lookup(times, version) matches Some(t) && !t.le(cutoff),
    ensures
        version_action(config, days, cutoff, package, version, times) matches
            PackageActionView::Answer(reply) && {
            &&& reply.status == 403
            &&& match delay_check::newest(delay_check::eligible(times, cutoff)) {
                Some(best) => {
                    &&& reply.headers.contains(("X-Delay-Suggested-Version"@, best))
                    &&& names::lookup(times, best) matches Some(t)
                    &&& t.le(cutoff)
                },
                None => forall|i: int|
                    0 <= i < reply.headers.len() ==> (#[trigger] reply.headers[i]).0
                        != "X-Delay-Suggested-Version"@,
            }
        },
{
    let reply = version_action(config, days, cutoff, package, version, times)->Answer_0;
    match delay_check::newest(delay_check::eligible(times, cutoff)) {
        Some(best) => {
            assert(reply.headers[1] == ("X-Delay-Suggested-Version"@, best));
            delay_check::law_newest(delay_check::eligible(times, cutoff));
            delay_check::law_eligible(times, cutoff, best);
        },
        None => {
            reveal_strlit("X-Delay-Suggested-Version");
            reveal_strlit("X-Delay-Original-Version");
            reveal_strlit("X-Delay-Reason");
            assert("X-Delay-Suggested-Version"@.len() != "X-Delay-Original-Version"@.len());
            assert("X-Delay-Suggested-Version"@.len() != "X-Delay-Reason"@.len());
            assert(reply.headers.len() == 2);
        },
    }
}

/// A download of a listed version is refused exactly if no version at all is old
/// enough.
pub proof fn law_download_refused(
    config: Config,
    days: i64,
    cutoff: Timestamp,
    package: Seq<char>,
    version: Seq<char>,
    times: Seq<(Seq<char>, Timestamp)>,
)
    requires
        names::in_order(times),
        names::lookup(times, version) is Some,
    ensures
        (download_action(config, days, cutoff, package, version, times) matches
            PackageActionView::Answer(reply) && reply.status == 403) <==> (forall|other: Seq<char>|
            #[trigger] names::lookup(times, other) matches Some(t) ==> !t.le(cutoff)),
{
    delay_check::law_denied(times, cutoff, version);
}

/// Every check of a listed version is logged, whether it is asked about or
/// downloaded, and only a version that is old enough is logged as allowed.
pub proof fn law_check_logged(
    days: i64,
    cutoff: Timestamp,
    package: Seq<char>,
    version: Seq<char>,
    times: Seq<(Seq<char>, Timestamp)>,
    client_ip: Option<Seq<char>>,
)
    requires
        names::lookup(times, version) is Some,
    ensures
        ({
            let old_enough = names::lookup(times, version) matches Some(t) && t.le(cutoff);
            let checked = version_lines(days, cutoff, package, version, times, client_ip);
            let downloaded = download_lines(days, cutoff, package, version, times, client_ip);
            &&& checked.len() > 0
            &&& downloaded.len() > 0
            &&& forall|i: int|
                0 <= i < checked.len() ==> (#[trigger] checked[i]).package_name == package
                    && checked[i].original_version == version && (checked[i].action
                    == delay_logger::DelayAction::Allowed) == old_enough
            &&& forall|i: int|
                0 <= i < downloaded.len() ==> (#[trigger] downloaded[i]).package_name == package
                    && downloaded[i].original_version == version && (downloaded[i].action
                    == delay_logger::DelayAction::Allowed) == old_enough
        }),
{
    delay_check::law_allowed(times, cutoff, version);
}

/// In rewritten metadata the tarball of a version is found below the base address,
/// under the whole name of the package, its scope included, and the version; everything
/// else of the version and of the metadata stays as it is.
#[verifier::rlimit(40)]
pub proof fn law_tarball_address(
    metadata: JsonView,
    base_url: Seq<char>,
    name: Seq<char>,
    versions: JsonView,
    version: Seq<char>,
    entry: JsonView,
    dist: JsonView,
    upstream: Seq<char>,
    key: Seq<char>,
)
    requires
        metadata matches JsonView::Object(m) && names::in_order(m),
        versions matches JsonView::Object(m) && names::in_order(m),
        entry matches JsonView::Object(m) && names::in_order(m),
        dist matches JsonView::Object(m) && names::in_order(m),
        metadata.get("name"@) == Some(JsonView::Str(name)),
        metadata.get("versions"@) == Some(versions),
        versions.get(version) == Some(entry),
        entry.get("dist"@) == Some(dist),
        dist.get("tarball"@) == Some(JsonView::Str(upstream)),
    ensures
        ({
            let after = rewritten(metadata, base_url);
            &&& after.get("versions"@) matches Some(new_versions)
            &&& new_versions.get(version) matches Some(new_entry)
            &&& new_entry.get("dist"@) matches Some(new_dist)
            &&& new_dist.get("tarball"@) == Some(
                JsonView::Str(base_url + "/dl/"@ + name + "@"@ + version),
            )
            &&& key != "tarball"@ ==> new_dist.get(key) == dist.get(key)
            &&& key != "dist"@ ==> new_entry.get(key) == entry.get(key)
            &&& key != "versions"@ ==> after.get(key) == metadata.get(key)
            &&& (new_versions.get(key) is Some <==> versions.get(key) is Some)
        }),
{
    let url = base_url + "/dl/"@ + name + "@"@ + version;
    let list = versions->Object_0;
    let mirrored = mirrored_versions(list, base_url, name);
    let new_dist = dist.put("tarball"@, JsonView::Str(url));
    json::law_put_get(dist, "tarball"@, JsonView::Str(url), key);
    json::law_put_get(entry, "dist"@, new_dist, key);
    json::law_put_get(metadata, "versions"@, JsonView::Object(mirrored), key);
    lemma_mirrored_lookup(list, base_url, name, version);
    lemma_mirrored_lookup(list, base_url, name, key);
}

proof fn lemma_mirrored_lookup(
    versions: Seq<(Seq<char>, JsonView)>,
    base_url: Seq<char>,
    package: Seq<char>,
    version: Seq<char>,
)
    ensures
        names::lookup(mirrored_versions(versions, base_url, package), version) == (
        match names::lookup(versions, version) {
            Some(entry) => Some(
                with_tarball(entry, base_url + "/dl/"@ + package + "@"@ + version),
            ),
            None => None,
        }),
    decreases versions.len(),
{
    if versions.len() > 0 {
        lemma_mirrored_lookup(versions.drop_last(), base_url, package, version);
        assert(mirrored_versions(versions, base_url, package).drop_last() =~= mirrored_versions(
            versions.drop_last(),
            base_url,
            package,
        ));
    }
}

/// A version that gives no tarball is left as it is, and so is metadata without
/// versions; a package without a name is called unknown.
pub proof fn law_tarball_absent(
    metadata: JsonView,
    base_url: Seq<char>,
    versions: JsonView,
    version: Seq<char>,
    entry: JsonView,
)
    requires
        metadata matches JsonView::Object(m) && names::in_order(m),
        versions.get(version) == Some(entry),
        match entry.get("dist"@) {
            Some(dist) => !(dist.get("tarball"@) matches Some(JsonView::Str(_))),
            None => true,
        },
    ensures
        metadata.get("versions"@) == Some(versions) ==> (rewritten(metadata, base_url).get(
            "versions"@,
        ) matches Some(after) && after.get(version) == Some(entry)),
        !(metadata.get("versions"@) matches Some(JsonView::Object(_))) ==> rewritten(
            metadata,
            base_url,
        ) == metadata,
        metadata.get("name"@) is None ==> package_name(metadata) == "unknown"@,
{
    if metadata.get("versions"@) == Some(versions) {
        let list = versions->Object_0;
        let package = package_name(metadata);
        json::law_put_get(
            metadata,
            "versions"@,
            JsonView::Object(mirrored_versions(list, base_url, package)),
            version,
        );
        lemma_mirrored_lookup(list, base_url, package, version);
    }
}

/// A download path made of the name of a package, with or without a scope, and a version
/// is read back to both.
#[verifier::rlimit(40)]
pub proof fn law_download_path(scope: Seq<char>, name: Seq<char>, version: Seq<char>)
    requires
        name.len() > 0,
        !name.contains('/'),
        !scope.contains('/'),
        version.len() > 0,
        !version.contains('/'),
        !version.contains('@'),
    ensures
        raw_id("/dl/"@ + (name + "@"@ + version)) == Some(name + "@"@ + version),
        raw_id("/dl/"@ + ("@"@ + scope + "/"@ + name + "@"@ + version)) == Some(
            "@"@ + scope + "/"@ + name + "@"@ + version,
        ),
        id_parts(name + "@"@ + version) == Some((name, version)),
        id_parts("@"@ + scope + "/"@ + name + "@"@ + version) == Some(
            ("@"@ + scope + "/"@ + name, version),
        ),
{
    reveal_strlit("@");
    reveal_strlit("/");
    law_id_read_back(name, version);
    law_id_read_back("@"@ + scope + "/"@ + name, version);
    let file = name + "@"@ + version;
    assert forall|i: int| 0 <= i < file.len() implies file[i] != '/' by {
        if i < name.len() {
            assert(name.contains(name[i]));
        } else if i > name.len() {
            assert(version.contains(version[i - name.len() - 1]));
        }
    }
    lemma_id_path(seq![file]);
    assert(text::join(seq![file], seq!['/']) == file);
    let first = "@"@ + scope;
    assert forall|i: int| 0 <= i < first.len() implies first[i] != '/' by {
        if i > 0 {
            assert(scope.contains(scope[i - 1]));
        }
    }
    let both = seq![first, file];
    lemma_id_path(both);
    assert(both.drop_last() =~= seq![first]);
    assert(text::join(seq![first], seq!['/']) == first);
    assert(text::join(both, seq!['/']) =~= "@"@ + scope + "/"@ + name + "@"@ + version);
}

proof fn lemma_id_path(parts: Seq<Seq<char>>)
    requires
        parts.len() > 0,
        parts[0].len() > 0,
        forall|i: int| 0 <= i < parts.len() ==> !(#[trigger] parts[i]).contains('/'),
    ensures
        raw_id("/dl/"@ + text::join(parts, seq!['/'])) == Some(text::join(parts, seq!['/'])),
{
    reveal_strlit("/dl/");
    reveal_strlit("dl");
    reveal_strlit("/");
    let sep = seq!['/'];
    let path = "/dl/"@ + text::join(parts, sep);
    let first = seq!["dl"@];
    let all = first + parts;
    text::lemma_join_add(first, parts, sep);
    assert(text::join(first, sep) == "dl"@);
    let rest = text::join(all, sep);
    assert(path =~= sep + rest);
    assert(path.skip(1) =~= rest);
    assert(rest[0] == 'd');
    assert(text::trim_start(rest, '/') == rest);
    assert(text::trim_start(path, '/') == rest);
    assert forall|i: int| 0 <= i < all.len() implies !(#[trigger] all[i]).contains('/') by {
        if i == 0 {
            assert(all[i] == "dl"@);
        } else {
            assert(all[i] == parts[i - 1]);
        }
    }
    text::law_join_split(all, '/');
    assert(all.subrange(1, all.len() as int) =~= parts);
    assert("/"@ =~= sep);
    if parts.len() == 1 {
        assert(text::join(parts, sep) == parts[0]);
    }
}

/// An identifier without a version, without a package or with nothing behind the last
/// at sign is refused.
pub proof fn law_id_refused(name: Seq<char>)
    requires
        !name.contains('@'),
    ensures
        id_parts(name) is None,
        id_parts("@"@ + name) is None,
        id_parts(name + "@"@) is None,
{
    reveal_strlit("@");
    let empty = Seq::<char>::empty();
    assert(!empty.contains('@'));
    text::law_after_last(empty, name, '@');
    assert(empty + seq!['@'] + name =~= "@"@ + name);
    text::law_after_last(name, empty, '@');
    assert(name + seq!['@'] + empty =~= name + "@"@);
}

/// The paths of a package and of a version of it are read piece by piece.
pub proof fn law_request_pieces(package: Seq<char>, version: Seq<char>)
    requires
        package.len() > 0,
        !package.contains('/'),
        version.len() > 0,
        !version.contains('/'),
    ensures
        piece("/npm/"@ + package, 1) == Some(package),
        piece("/npm/"@ + package, 2) is None,
        piece("/npm/"@ + package + "/"@ + version, 1) == Some(package),
        piece("/npm/"@ + package + "/"@ + version, 2) == Some(version),
        piece("/npm/"@, 1) is None,
{
    reveal_strlit("/npm/");
    reveal_strlit("npm");
    reveal_strlit("/");
    let sep = seq!['/'];
    lemma_npm_pieces(seq![package]);
    assert(text::join(seq![package], sep) == package);
    let both = seq![package, version];
    lemma_npm_pieces(both);
    assert(both.drop_last() =~= seq![package]);
    assert("/npm/"@ + text::join(both, sep) =~= "/npm/"@ + package + "/"@ + version);
    let empty = Seq::<char>::empty();
    assert(!empty.contains('/'));
    lemma_npm_pieces(seq![empty]);
    assert(text::join(seq![empty], sep) == empty);
    assert("/npm/"@ + empty =~= "/npm/"@);
}

proof fn lemma_npm_pieces(parts: Seq<Seq<char>>)
    requires
        parts.len() > 0,
        forall|i: int| 0 <= i < parts.len() ==> !(#[trigger] parts[i]).contains('/'),
    ensures
        path_pieces("/npm/"@ + text::join(parts, seq!['/'])) == seq!["npm"@] + parts,
{
    reveal_strlit("/npm/");
    reveal_strlit("npm");
    let sep = seq!['/'];
    let path = "/npm/"@ + text::join(parts, sep);
    let first = seq!["npm"@];
    let all = first + parts;
    text::lemma_join_add(first, parts, sep);
    assert(text::join(first, sep) == "npm"@);
    let rest = text::join(all, sep);
    assert(path =~= sep + rest);
    assert(path.skip(1) =~= rest);
    assert(rest[0] == 'n');
    assert(text::trim_start(rest, '/') == rest);
    assert(text::trim_start(path, '/') == rest);
    assert forall|i: int| 0 <= i < all.len() implies !(#[trigger] all[i]).contains('/') by {
        if i == 0 {
            assert(all[i] == "npm"@);
        } else {
            assert(all[i] == parts[i - 1]);
        }
    }
    text::law_join_split(all, '/');
}

/// A version that is old enough is redirected to its tarball in the download registry.
pub proof fn law_version_redirected(
    config: Config,
    days: i64,
    cutoff: Timestamp,
    package: Seq<char>,
    version: Seq<char>,
    times: Seq<(Seq<char>, Timestamp)>,
    t: Timestamp,
)
    requires
        names::lookup(times, version) == Some(t),
        t.le(cutoff),
    ensures
        version_action(config, days, cutoff, package, version, times)
            == (PackageActionView::Redirect {
            url: config.npm_download_registry@ + "/"@ + package + "/-/"@ + package + "-"@ + version
                + ".tgz"@,
        }),
{
}

/// A version that is not listed is not found, whether it is asked for or downloaded.
pub proof fn law_version_unlisted(
    config: Config,
    days: i64,
    cutoff: Timestamp,
    package: Seq<char>,
    version: Seq<char>,
    times: Seq<(Seq<char>, Timestamp)>,
)
    requires
        names::lookup(times, version) is None,
    ensures
        ({
            let asked = version_action(config, days, cutoff, package, version, times);
            let downloaded = download_action(config, days, cutoff, package, version, times);
            &&& asked matches PackageActionView::Answer(reply)
            &&& reply.status == 404
            &&& reply.body matches crate::reply::BodyView::Json(body)
            &&& body.get("package"@) == Some(JsonView::Str(package))
            &&& body.get("version"@) == Some(JsonView::Str(version))
            &&& downloaded matches PackageActionView::Answer(refused)
            &&& refused.status == 404
            &&& refused.body matches crate::reply::BodyView::Json(said)
            &&& said.get("package"@) == Some(JsonView::Str(package))
            &&& said.get("version"@) == Some(JsonView::Str(version))
        }),
{
    lemma_named("Version not found"@, package, version);
    lemma_named("Version not found in package metadata"@, package, version);
}

proof fn lemma_named(error: Seq<char>, package: Seq<char>, version: Seq<char>)
    ensures
        ({
            let body = JsonView::object().put("error"@, JsonView::Str(error)).put(
                "package"@,
                JsonView::Str(package),
            ).put("version"@, JsonView::Str(version));
            &&& body.get("error"@) == Some(JsonView::Str(error))
            &&& body.get("package"@) == Some(JsonView::Str(package))
            &&& body.get("version"@) == Some(JsonView::Str(version))
        }),
{
    reveal_strlit("error");
    reveal_strlit("package");
    reveal_strlit("version");
    assert("error"@.len() == 5 && "package"@[0] == 'p' && "version"@[0] == 'v');
    assert("package"@.len() == 7 && "version"@.len() == 7);
    let a = JsonView::object();
    let b = a.put("error"@, JsonView::Str(error));
    let c = b.put("package"@, JsonView::Str(package));
    json::law_put_get(a, "error"@, JsonView::Str(error), "package"@);
    json::law_put_get(b, "package"@, JsonView::Str(package), "error"@);
    json::law_put_get(c, "version"@, JsonView::Str(version), "error"@);
    json::law_put_get(c, "version"@, JsonView::Str(version), "package"@);
}

/// A version that is too young is refused; the body and the headers name it and the
/// version to take instead, which is the newest that is old enough.
pub proof fn law_withheld_members(
    config: Config,
    days: i64,
    cutoff: Timestamp,
    package: Seq<char>,
    version: Seq<char>,
    times: Seq<(Seq<char>, Timestamp)>,
    t: Timestamp,
)
    requires
        names::lookup(times, version) == Some(t),
        !t.le(cutoff),
    ensures
        ({
            let best = delay_check::newest(delay_check::eligible(times, cutoff));
            &&& version_action(config, days, cutoff, package, version, times) matches
                PackageActionView::Answer(reply)
            &&& reply.status == 403
            &&& reply.headers[0] == ("X-Delay-Original-Version"@, version)
            &&& best matches Some(b) ==> reply.headers[1] == ("X-Delay-Suggested-Version"@, b)
            &&& reply.body matches crate::reply::BodyView::Json(body)
            &&& body.get("error"@) == Some(JsonView::Str("Version too recent for download"@))
            &&& body.get("package"@) == Some(JsonView::Str(package))
            &&& body.get("requested_version"@) == Some(JsonView::Str(version))
            &&& body.get("reason"@) == Some(JsonView::Str(too_recent(days)))
            &&& body.get("suggested_version"@) == Some(
                match best {
                    Some(b) => JsonView::Str(b),
                    None => JsonView::Null,
                },
            )
        }),
{
    delay_check::law_resolution_substitute(times, cutoff, version);
    let best = delay_check::newest(delay_check::eligible(times, cutoff));
    crate::pypi_handler::law_denial_members(package, version, too_recent(days), best);
}

/// A download of a version that is old enough is that version of the tarball, and
/// nothing is said of it in headers; the file is named without the scope of its package.
pub proof fn law_download_served(
    config: Config,
    days: i64,
    cutoff: Timestamp,
    scope: Seq<char>,
    name: Seq<char>,
    version: Seq<char>,
    times: Seq<(Seq<char>, Timestamp)>,
    t: Timestamp,
)
    requires
        names::lookup(times, version) == Some(t),
        t.le(cutoff),
        name.len() > 0,
        name[0] != '@',
        !name.contains('/'),
    ensures
        ({
            let registry = config.npm_download_registry@;
            let scoped = "@"@ + scope + "/"@ + name;
            &&& download_action(config, days, cutoff, name, version, times)
                == PackageActionView::Proxy {
                url: registry + "/"@ + name + "/-/"@ + name + "-"@ + version + ".tgz"@,
                headers: Seq::empty(),
            }
            &&& download_action(config, days, cutoff, scoped, version, times)
                == PackageActionView::Proxy {
                url: registry + "/"@ + scoped + "/-/"@ + name + "-"@ + version + ".tgz"@,
                headers: Seq::empty(),
            }
        }),
{
    lemma_tarball_name(scope, name);
}

proof fn lemma_tarball_name(scope: Seq<char>, name: Seq<char>)
    requires
        name.len() > 0,
        name[0] != '@',
        !name.contains('/'),
    ensures
        tarball_name(name) == name,
        tarball_name("@"@ + scope + "/"@ + name) == name,
{
    reveal_strlit("@");
    reveal_strlit("/");
    text::law_after_last("@"@ + scope, name, '/');
    assert("/"@ =~= seq!['/']);
}

/// A download of a version that is too young is that of the newest version that is old
/// enough, and the headers name both.
pub proof fn law_download_replaced(
    config: Config,
    days: i64,
    cutoff: Timestamp,
    scope: Seq<char>,
    name: Seq<char>,
    version: Seq<char>,
    times: Seq<(Seq<char>, Timestamp)>,
    t: Timestamp,
    best: Seq<char>,
)
    requires
        names::lookup(times, version) == Some(t),
        !t.le(cutoff),
        delay_check::newest(delay_check::eligible(times, cutoff)) == Some(best),
        name.len() > 0,
        name[0] != '@',
        !name.contains('/'),
    ensures
        ({
            let registry = config.npm_download_registry@;
            let scoped = "@"@ + scope + "/"@ + name;
            let reason = "Version too recent, auto-downgraded for security"@;
            let headers = seq![
                ("X-Delay-Original-Version"@, version),
                ("X-Delay-Redirected-Version"@, best),
                ("X-Delay-Reason"@, reason),
            ];
            &&& download_action(config, days, cutoff, name, version, times)
                == PackageActionView::Proxy {
                url: registry + "/"@ + name + "/-/"@ + name + "-"@ + best + ".tgz"@,
                headers,
            }
            &&& download_action(config, days, cutoff, scoped, version, times)
                == PackageActionView::Proxy {
                url: registry + "/"@ + scoped + "/-/"@ + name + "-"@ + best + ".tgz"@,
                headers,
            }
        }),
{
    lemma_tarball_name(scope, name);
}

/// A download that nothing can stand in for is refused with the package, the version and
/// the reason, and nothing is suggested.
pub proof fn law_download_denial(
    config: Config,
    days: i64,
    cutoff: Timestamp,
    package: Seq<char>,
    version: Seq<char>,
    times: Seq<(Seq<char>, Timestamp)>,
    t: Timestamp,
)
    requires
        names::lookup(times, version) == Some(t),
        !t.le(cutoff),
        delay_check::eligible(times, cutoff).len() == 0,
    ensures
        ({
            &&& download_action(config, days, cutoff, package, version, times) matches
                PackageActionView::Answer(reply)
            &&& reply.status == 403
            &&& reply.body matches crate::reply::BodyView::Json(body)
            &&& body.get("package"@) == Some(JsonView::Str(package))
            &&& body.get("requested_version"@) == Some(JsonView::Str(version))
            &&& body.get("reason"@) == Some(
                JsonView::Str(
                    "Version was published within the last "@ + text::decimal(days as int)
                        + " day(s) and no older alternative is available"@,
                ),
            )
            &&& body.get("suggested_version"@) == Some(JsonView::Null)
        }),
{
    delay_check::law_newest(delay_check::eligible(times, cutoff));
    delay_check::law_resolution_substitute(times, cutoff, version);
    crate::pypi_handler::law_denial_members(package, version, no_alternative(days), None);
}

/// What is written down of a download: that it was allowed, or which version was served
/// instead, or that it was blocked.
pub proof fn law_download_line(
    days: i64,
    cutoff: Timestamp,
    package: Seq<char>,
    version: Seq<char>,
    times: Seq<(Seq<char>, Timestamp)>,
    client_ip: Option<Seq<char>>,
    t: Timestamp,
)
    requires
        names::lookup(times, version) == Some(t),
    ensures
        ({
            let lines = download_lines(days, cutoff, package, version, times, client_ip);
            let best = delay_check::newest(delay_check::eligible(times, cutoff));
            &&& lines.len() == 1
            &&& lines[0].package_type == PackageType::Npm
            &&& lines[0].client_ip == client_ip
            &&& lines[0].actual_version == (if t.le(cutoff) {
                None
            } else {
                best
            })
            &&& lines[0].action == (if t.le(cutoff) {
                delay_logger::DelayAction::Allowed
            } else if best is Some {
                delay_logger::DelayAction::Downgraded
            } else {
                delay_logger::DelayAction::Denied
            })
        }),
{
}

/// What is written down of a version that is asked for: that it was allowed, or that it
/// was blocked and which version is suggested instead.
pub proof fn law_version_line(
    days: i64,
    cutoff: Timestamp,
    package: Seq<char>,
    version: Seq<char>,
    times: Seq<(Seq<char>, Timestamp)>,
    client_ip: Option<Seq<char>>,
    t: Timestamp,
)
    requires
        names::lookup(times, version) == Some(t),
    ensures
        ({
            let lines = version_lines(days, cutoff, package, version, times, client_ip);
            let best = delay_check::newest(delay_check::eligible(times, cutoff));
            &&& lines.len() == (if !t.le(cutoff) && best is Some {
                2int
            } else {
                1
            })
            &&& lines[0].package_type == PackageType::Npm
            &&& lines[0].client_ip == client_ip
            &&& lines[0].actual_version is None
            &&& lines[0].action == (if t.le(cutoff) {
                delay_logger::DelayAction::Allowed
            } else {
                delay_logger::DelayAction::Denied
            })
            &&& !t.le(cutoff) ==> lines[0].reason == too_recent(days)
            &&& lines.len() == 2 ==> {
                &&& lines[1].action == delay_logger::DelayAction::Downgraded
                &&& lines[1].actual_version == best
                &&& lines[1].client_ip == client_ip
            }
        }),
{
    delay_check::law_resolution_substitute(times, cutoff, version);
}

/// In filtered metadata a time is listed exactly if it is that of a version that is old
/// enough, or one of the two that belong to the package as a whole; the tags but the
/// latest one stay.
pub proof fn law_filtered_times(
    metadata: JsonView,
    times: Seq<(Seq<char>, Timestamp)>,
    cutoff: Timestamp,
    listed: JsonView,
    version: Seq<char>,
)
    requires
        metadata matches JsonView::Object(m) && names::in_order(m),
        names::in_order(times),
        delay_check::eligible(times, cutoff).len() > 0,
        listed is Object,
        metadata.get("time"@) == Some(listed),
    ensures
        ({
            let after = filtered(metadata, delay_check::eligible(times, cutoff));
            let old_enough = names::lookup(times, version) matches Some(t) && t.le(cutoff);
            &&& after.get("time"@) matches Some(left)
            &&& left.get(version) == (if version == "created"@ || version == "modified"@
                || old_enough {
                listed.get(version)
            } else {
                None
            })
        }),
{
    reveal_strlit("versions");
    reveal_strlit("dist-tags");
    reveal_strlit("time");
    assert("versions"@.len() == 8 && "dist-tags"@.len() == 9 && "time"@.len() == 4);
    let kept = delay_check::eligible(times, cutoff);
    delay_check::law_eligible(times, cutoff, version);
    let one = keep_versions(metadata, kept);
    if inner_object(metadata, "versions"@) is Some {
        json::law_put_get(
            metadata,
            "versions"@,
            JsonView::Object(
                names::keep(
                    inner_object(metadata, "versions"@)->0,
                    |v: Seq<char>| kept.contains(v),
                ),
            ),
            "time"@,
        );
    }
    assert(one.get("time"@) == Some(listed));
    let two = listing(metadata, kept);
    if inner_object(one, "dist-tags"@) is Some && delay_check::newest(kept) is Some {
        json::law_put_get(
            one,
            "dist-tags"@,
            JsonView::Object(
                names::put(
                    inner_object(one, "dist-tags"@)->0,
                    "latest"@,
                    JsonView::Str(delay_check::newest(kept)->0),
                ),
            ),
            "time"@,
        );
    }
    assert(two.get("time"@) == Some(listed));
    let passes = |v: Seq<char>| delay_check::is_bookkeeping(v) || kept.contains(v);
    let left = names::keep(listed->Object_0, passes);
    json::law_put_get(two, "time"@, JsonView::Object(left), "time"@);
    names::lemma_keep_lookup(listed->Object_0, passes, version);
}

/// In filtered metadata the tags but the latest one stay.
pub proof fn law_filtered_tags(
    metadata: JsonView,
    kept: Seq<Seq<char>>,
    tags: JsonView,
    tag: Seq<char>,
)
    requires
        metadata matches JsonView::Object(m) && names::in_order(m),
        tags matches JsonView::Object(m) && names::in_order(m),
        metadata.get("dist-tags"@) == Some(tags),
        tag != "latest"@,
    ensures
        filtered(metadata, kept).get("dist-tags"@) matches Some(left) && left.get(tag) == tags.get(
            tag,
        ),
{
    reveal_strlit("versions");
    reveal_strlit("dist-tags");
    reveal_strlit("time");
    assert("versions"@.len() == 8 && "dist-tags"@.len() == 9 && "time"@.len() == 4);
    let one = keep_versions(metadata, kept);
    if inner_object(metadata, "versions"@) is Some {
        json::law_put_get(
            metadata,
            "versions"@,
            JsonView::Object(
                names::keep(
                    inner_object(metadata, "versions"@)->0,
                    |v: Seq<char>| kept.contains(v),
                ),
            ),
            "dist-tags"@,
        );
    }
    assert(one.get("dist-tags"@) == Some(tags));
    let two = listing(metadata, kept);
    if delay_check::newest(kept) is Some {
        let latest = JsonView::Str(delay_check::newest(kept)->0);
        let new_tags = names::put(tags->Object_0, "latest"@, latest);
        json::law_put_get(tags, "latest"@, latest, tag);
        json::law_put_get(one, "dist-tags"@, JsonView::Object(new_tags), "dist-tags"@);
    }
    if inner_object(two, "time"@) is Some {
        json::law_put_get(
            two,
            "time"@,
            JsonView::Object(
                names::keep(
                    inner_object(two, "time"@)->0,
                    |v: Seq<char>| delay_check::is_bookkeeping(v) || kept.contains(v),
                ),
            ),
            "dist-tags"@,
        );
    }
}

/// Metadata whose times can be read is served filtered and rewritten, with a warning
/// exactly if no version is old enough; else the reason is answered.
pub proof fn law_metadata_reply(
    metadata: JsonView,
    field: JsonView,
    times: Seq<(Seq<char>, Timestamp)>,
    cutoff: Timestamp,
    base_url: Seq<char>,
)
    requires
        metadata.get("time"@) == Some(field),
        delay_check::field_times(field) == Ok::<_, ErrorView>(times),
    ensures
        ({
            let reply = metadata_reply(metadata, cutoff, base_url);
            let kept = delay_check::eligible(times, cutoff);
            &&& reply.status == 200
            &&& reply.body == crate::reply::BodyView::Json(
                rewritten(
                    if kept.len() == 0 {
                        metadata
                    } else {
                        filtered(metadata, kept)
                    },
                    base_url,
                ),
            )
            &&& reply.headers[0] == ("Content-Type"@, "application/json"@)
            &&& reply.headers.len() == (if kept.len() == 0 {
                2int
            } else {
                1
            })
            &&& kept.len() == 0 ==> reply.headers[1] == (
                "X-Delay-Warning"@,
                "All versions are recent"@,
            )
        }),
{
}

/// Metadata without times, or with times that cannot be read, is answered with an error
/// of the server, for the package and for a version of it alike.
pub proof fn law_times_unreadable(metadata: JsonView, cutoff: Timestamp, base_url: Seq<char>)
    ensures
        metadata.get("time"@) is None || delay_check::field_times(metadata.get("time"@)->0) is Err
            <==> metadata_reply(metadata, cutoff, base_url).status == 500,
        metadata.get("time"@) is None || delay_check::field_times(metadata.get("time"@)->0) is Err
            <==> times_or_reply(metadata) is Err,
        times_or_reply(metadata) matches Err(reply) ==> reply.status == 500,
        times_or_reply(metadata) matches Ok(times) ==> delay_check::field_times(
            metadata.get("time"@)->0,
        ) == Ok::<_, ErrorView>(times),
{
}

/// Metadata is taken from the registry only where it was found and could be read;
/// else the status says what went wrong.
pub proof fn law_fetched_metadata(package: Seq<char>, fetched: MetadataFetch)
    ensures
        fetched_metadata(package, fetched) is Ok <==> (fetched matches MetadataFetch::Parsed {
            status,
            ..
        } && 200 <= status < 300),
        fetched_metadata(package, fetched) matches Ok(value) ==> (fetched matches
            MetadataFetch::Parsed { metadata, .. } && metadata@ == value),
        fetched_metadata(package, fetched) matches Err(reply) ==> reply.status == (
        match fetched.status() {
            None => 502u16,
            Some(status) => if status == 404 {
                404
            } else if 200 <= status < 300 {
                500
            } else {
                502
            },
        }),
{
}

/// The version of a file is what the first group of the match holds.
pub proof fn law_captured_version(groups: Seq<Option<Seq<char>>>)
    ensures
        groups.len() >= 2 ==> captured_version(Some(groups)) == groups[1],
        groups.len() < 2 ==> captured_version(Some(groups)) is None,
        captured_version(None) is None,
{
}

/// The tarball of a package without a scope is named like the package, whatever its name.
pub proof fn law_tarball_name(package: Seq<char>)
    requires
        package.len() > 0,
        package[0] != '@' || !package.contains('/'),
    ensures
        tarball_name(package) == package,
{
    if package[0] == '@' {
        text::law_after_last(package, package, '/');
    }
}

/// An error that is answered names itself, and its details where it has any.
pub proof fn law_error_members(status: u16, error: Seq<char>, details: Seq<char>)
    ensures
        detailed(status, error, details).status == status,
        detailed(status, error, details).headers.len() == 0,
        detailed(status, error, details).body matches crate::reply::BodyView::Json(body)
            && body.get("error"@) == Some(JsonView::Str(error)) && body.get("details"@) == Some(
            JsonView::Str(details),
        ),
        plain_error(status, error).status == status,
        plain_error(status, error).body matches crate::reply::BodyView::Json(body) && body.get(
            "error"@,
        ) == Some(JsonView::Str(error)),
{
    reveal_strlit("error");
    reveal_strlit("details");
    assert("error"@.len() == 5 && "details"@.len() == 7);
    json::lemma_puts();
}

/// An identifier that cannot be read is given back with what was expected; one that has
/// a scope is told of both forms.
pub proof fn law_bad_id(id: Seq<char>, scope: Seq<char>)
    ensures
        bad_id(id).status == 400,
        bad_id(id).body matches crate::reply::BodyView::Json(body) && body.get("got"@) == Some(
            JsonView::Str(id),
        ),
        scope.len() > 0 && !scope.contains('@') ==> (bad_id(seq!['@'] + scope).body matches
            crate::reply::BodyView::Json(body) && body.get("expected"@) == Some(
            JsonView::Str("/dl/{package}@{version} or /dl/{@scope/package}@{version}"@),
        )),
        !id.contains('@') ==> (bad_id(id).body matches crate::reply::BodyView::Json(body)
            && body.get("expected"@) == Some(JsonView::Str("/dl/{package}@{version}"@))),
{
    reveal_strlit("error");
    reveal_strlit("expected");
    reveal_strlit("got");
    assert("error"@.len() == 5 && "expected"@.len() == 8 && "got"@.len() == 3);
    json::lemma_puts();
    let empty = Seq::<char>::empty();
    if !scope.contains('@') {
        text::law_after_last(empty, scope, '@');
        assert(empty + seq!['@'] + scope =~= seq!['@'] + scope);
    }
    if !id.contains('@') {
        text::law_after_last(empty, id, '@');
    }
}

/// The refusal of a version gives its reason last.
pub proof fn law_withheld_reason(
    package: Seq<char>,
    version: Seq<char>,
    days: i64,
    suggested: Option<Seq<char>>,
)
    ensures
        ({
            let reply = withheld(package, version, days, suggested);
            &&& reply.headers.len() == (if suggested is Some {
                3int
            } else {
                2
            })
            &&& reply.headers.last() == (
                "X-Delay-Reason"@,
                "Version published too recently, below delay threshold"@,
            )
        }),
{
}

/// What is said where metadata could not be had names the step that failed and the
/// error, or the package, or the status.
pub proof fn law_fetch_messages(
    package: Seq<char>,
    status: u16,
    error: String,
    metadata: Json,
)
    ensures
        fetched_metadata(package, MetadataFetch::NotSent(error)) == Err::<JsonView, ReplyView>(
            detailed(502, "Failed to create upstream request"@, error@),
        ),
        fetched_metadata(package, MetadataFetch::NotAnswered(error)) == Err::<JsonView, ReplyView>(
            detailed(502, "Failed to connect to upstream registry"@, error@),
        ),
        200 <= status < 300 ==> fetched_metadata(
            package,
            MetadataFetch::Unreadable { status, error },
        ) == Err::<JsonView, ReplyView>(
            detailed(500, "Failed to read upstream response"@, error@),
        ),
        200 <= status < 300 ==> fetched_metadata(
            package,
            MetadataFetch::Malformed { status, error },
        ) == Err::<JsonView, ReplyView>(
            detailed(500, "Failed to parse package metadata"@, error@),
        ),
        status == 404 ==> (fetched_metadata(
            package,
            MetadataFetch::Parsed { status, metadata },
        ) matches Err(reply) && reply.body matches crate::reply::BodyView::Json(body) && body.get(
            "package"@,
        ) == Some(JsonView::Str(package))),
        status != 404 && !(200 <= status < 300) ==> (fetched_metadata(
            package,
            MetadataFetch::Parsed { status, metadata },
        ) matches Err(reply) && reply.body matches crate::reply::BodyView::Json(body) && body.get(
            "status"@,
        ) == Some(JsonView::Number(text::decimal(status as int)))),
{
    json::lemma_puts();
}

/// What is said where the times cannot be read names the error.
pub proof fn law_times_messages(metadata: JsonView, cutoff: Timestamp, base_url: Seq<char>)
    ensures
        metadata.get("time"@) is None ==> times_or_reply(metadata) == Err::<
            Seq<(Seq<char>, Timestamp)>,
            ReplyView,
        >(
            detailed(
                500,
                "Unable to determine version age"@,
                "Package metadata does not contain a valid 'time' field"@,
            ),
        ),
        metadata.get("time"@) matches Some(field) ==> (delay_check::field_times(field) matches Err(
            e,
        ) ==> times_or_reply(metadata) == Err::<Seq<(Seq<char>, Timestamp)>, ReplyView>(
            detailed(500, "Failed to parse version timing information"@, e.message()),
        )),
{
}

/// What is said of a package whose times cannot be read names the reason.
pub proof fn law_metadata_errors(metadata: JsonView, cutoff: Timestamp, base_url: Seq<char>)
    ensures
        metadata.get("time"@) is None ==> metadata_reply(metadata, cutoff, base_url) == detailed(
            500,
            "Unable to determine version ages"@,
            "Package metadata does not contain a valid 'time' field"@,
        ),
        metadata.get("time"@) matches Some(field) ==> (delay_check::field_times(field) matches Err(
            e,
        ) ==> metadata_reply(metadata, cutoff, base_url) == (if e == ErrorView::MissingTimeField {
            detailed(
                500,
                "Unable to determine version ages"@,
                "Package metadata does not contain a valid 'time' field"@,
            )
        } else {
            detailed(500, "Delay check failed"@, e.message())
        })),
{
}

/// A path is read piece by piece, however many it has; an empty piece is none.
pub proof fn law_piece(parts: Seq<Seq<char>>, i: int)
    requires
        parts.len() > 0,
        forall|j: int| 0 <= j < parts.len() ==> !(#[trigger] parts[j]).contains('/'),
        0 <= i,
    ensures
        piece("/npm/"@ + text::join(parts, seq!['/']), i + 1) == (if i < parts.len() && parts[i].len()
            > 0 {
            Some(parts[i])
        } else {
            None
        }),
{
    lemma_npm_pieces(parts);
    let all = seq!["npm"@] + parts;
    if i < parts.len() {
        assert(all[i + 1] == parts[i]);
    }
}

/// The lines that are written down, in full, of a version that is too young: that it was
/// blocked, and what is suggested; and of a download that was replaced or blocked.
pub proof fn law_young_lines(
    days: i64,
    cutoff: Timestamp,
    package: Seq<char>,
    version: Seq<char>,
    times: Seq<(Seq<char>, Timestamp)>,
    client_ip: Option<Seq<char>>,
    t: Timestamp,
)
    requires
        names::lookup(times, version) == Some(t),
        !t.le(cutoff),
    ensures
        ({
            let asked = version_lines(days, cutoff, package, version, times, client_ip);
            let downloaded = download_lines(days, cutoff, package, version, times, client_ip);
            &&& asked[0].reason == too_recent(days)
            &&& asked.len() == 2 ==> asked[1].reason
                == "Version too recent, suggesting older alternative"@
            &&& downloaded[0].reason == (if delay_check::newest(
                delay_check::eligible(times, cutoff),
            ) is Some {
                "Version too recent, auto-downgraded for security"@
            } else {
                "Version was published within the last "@ + text::decimal(days as int)
                    + " day(s) and no older alternative is available"@
            })
        }),
{
    delay_check::law_resolution_substitute(times, cutoff, version);
}

} // verus!
