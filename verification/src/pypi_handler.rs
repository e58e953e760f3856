//! PyPI packages: file names, release metadata, and the answers of the
//! standalone server.

use vstd::prelude::*;
use vstd::string::{StrSliceExecFns, StringExecFns};

use crate::config::Config;
use crate::delay_check::{
    self, CheckView, DelayCheckError, DelayChecker, ErrorView, VersionCheckResult, VersionTimeInfo,
};
use crate::delay_logger::{self, DelayLogEntry, DelayLogger, LogView, PackageType};
use crate::fetch::{self, Fetched, FetchedView};
use crate::json::{self, Json, JsonView};
use crate::names;
use crate::reply::{Body, BodyView, Reply, ReplyView};
use crate::text;
use crate::timestamp::Timestamp;

verus! {

/// Whether `c` separates the words of a package name.
pub open spec fn is_separator(c: char) -> bool {
    c == '-' || c == '_' || c == '.'
}

/// A name with a single hyphen for each run of separators.
pub open spec fn collapse(name: Seq<char>) -> Seq<char>
    decreases name.len(),
{
    if name.len() == 0 {
        name
    } else if !is_separator(name.last()) {
        collapse(name.drop_last()).push(name.last())
    } else if name.len() >= 2 && is_separator(name[name.len() - 2]) {
        collapse(name.drop_last())
    } else {
        collapse(name.drop_last()).push('-')
    }
}

fn collapse_separators(name: &str) -> (r: String)
    ensures
        r@ == collapse(name@),
{
    let chars = text::chars_of(name);
    let mut r = String::new();
    let mut i: usize = 0;
    proof {
        assert(name@.take(0) =~= Seq::empty());
    }
    while i < chars.len()
        invariant
            chars@ == name@,
            i <= name@.len(),
            r@ == collapse(name@.take(i as int)),
        decreases name@.len() - i,
    {
        let c = chars[i];
        proof {
            let longer = name@.take(i + 1);
            assert(longer.drop_last() =~= name@.take(i as int));
            assert(longer.last() == c);
        }
        if c != '-' && c != '_' && c != '.' {
            r.push(c);
        } else if i == 0 || (chars[i - 1] != '-' && chars[i - 1] != '_' && chars[i - 1] != '.') {
            r.push('-');
        }
        i += 1;
    }
    proof {
        assert(name@.take(name@.len() as int) =~= name@);
    }
    r
}

/// The form of a package name under which the index lists it.
pub fn normalize_package_name(name: &str) -> (r: String)
    ensures
        r@ == text::lowercase(collapse(name@)),
        text::is_ascii(name@) ==> r@ == text::ascii_lowered(collapse(name@)),
{
    let collapsed = collapse_separators(name);
    proof {
        if text::is_ascii(name@) {
            lemma_collapse_ascii(name@);
        }
    }
    text::to_lowercase(collapsed.as_str())
}

proof fn lemma_collapse_ascii(name: Seq<char>)
    requires
        text::is_ascii(name),
    ensures
        text::is_ascii(collapse(name)),
    decreases name.len(),
{
    if name.len() > 0 {
        let front = name.drop_last();
        assert forall|i: int| 0 <= i < front.len() implies (#[trigger] front[i] as int) < 128 by {
            assert(front[i] == name[i]);
        }
        lemma_collapse_ascii(front);
        assert((name[name.len() - 1] as int) < 128);
    }
}

/// Whether no separator but single hyphens is left in a name.
pub open spec fn is_collapsed(name: Seq<char>) -> bool {
    &&& forall|i: int| 0 <= i < name.len() ==> #[trigger] name[i] != '_' && name[i] != '.'
    &&& forall|i: int|
        0 < i < name.len() ==> !(#[trigger] name[i] == '-' && name[i - 1] == '-')
}

proof fn lemma_collapse_collapsed(name: Seq<char>)
    ensures
        is_collapsed(collapse(name)),
        collapse(name).len() > 0 && collapse(name).last() == '-' <==> name.len() > 0
            && is_separator(name.last()),
    decreases name.len(),
{
    if name.len() > 0 {
        let front = name.drop_last();
        lemma_collapse_collapsed(front);
        let c = collapse(front);
        let r = collapse(name);
        if name.len() >= 2 {
            assert(front.last() == name[name.len() - 2]);
        }
        if r != c {
            assert forall|i: int| 0 <= i < r.len() implies #[trigger] r[i] != '_' && r[i] != '.' by {
                if i < c.len() {
                    assert(r[i] == c[i]);
                }
            }
            assert forall|i: int| 0 < i < r.len() implies !(#[trigger] r[i] == '-' && r[i - 1]
                == '-') by {
                if i < c.len() {
                    assert(r[i] == c[i] && r[i - 1] == c[i - 1]);
                } else {
                    assert(r[i - 1] == c.last());
                }
            }
        }
    }
}

proof fn lemma_collapse_fixed(name: Seq<char>)
    requires
        is_collapsed(name),
    ensures
        collapse(name) == name,
    decreases name.len(),
{
    if name.len() > 0 {
        let front = name.drop_last();
        assert forall|i: int| 0 <= i < front.len() implies #[trigger] front[i] != '_' && front[i]
            != '.' by {
            assert(front[i] == name[i]);
        }
        assert forall|i: int| 0 < i < front.len() implies !(#[trigger] front[i] == '-' && front[i
            - 1] == '-') by {
            assert(front[i] == name[i] && front[i - 1] == name[i - 1]);
        }
        lemma_collapse_fixed(front);
        let n = name.len() - 1;
        assert(name[n] != '_' && name[n] != '.');
        if n >= 1 {
            assert(!(name[n] == '-' && name[n - 1] == '-'));
            assert(name[n - 1] != '_' && name[n - 1] != '.');
        }
        assert(front.push(name.last()) =~= name);
    }
}

/// Normalising an ASCII name again changes nothing, and neither capitals nor
/// separators other than single hyphens are left in it.
pub proof fn law_normalize_twice(name: Seq<char>)
    requires
        text::is_ascii(name),
    ensures
        ({
            let once = text::ascii_lowered(collapse(name));
            &&& text::is_ascii(once)
            &&& text::ascii_lowered(collapse(once)) == once
            &&& is_collapsed(once)
            &&& forall|i: int| 0 <= i < once.len() ==> !('A' <= #[trigger] once[i] <= 'Z')
        }),
{
    let c = collapse(name);
    let once = text::ascii_lowered(c);
    lemma_collapse_ascii(name);
    lemma_collapse_collapsed(name);
    assert forall|i: int| 0 <= i < once.len() implies (#[trigger] once[i] as int) < 128 && !('A'
        <= once[i] <= 'Z') && once[i] != '_' && once[i] != '.' by {
        assert((c[i] as int) < 128);
        assert(c[i] != '_' && c[i] != '.');
    }
    assert forall|i: int| 0 < i < once.len() implies !(#[trigger] once[i] == '-' && once[i - 1]
        == '-') by {
        assert(!(c[i] == '-' && c[i - 1] == '-'));
    }
    lemma_collapse_fixed(once);
    assert(text::ascii_lowered(once) =~= once);
}

/// Whether a compatibility tag of a wheel is written as one.
pub open spec fn is_tag(tag: Seq<char>) -> bool {
    tag.contains('.') || forall|i: int|
        0 <= i < tag.len() ==> text::alphanumeric(#[trigger] tag[i]) || tag[i] == '_' || tag[i]
            == '.'
}

/// The pieces of a wheel's file name.
pub open spec fn wheel_pieces(filename: Seq<char>) -> Seq<Seq<char>> {
    text::split(text::trim_end_text(filename, ".whl"@), '-')
}

/// The distribution and version of a wheel, given whether the last piece of its
/// name is a tag.
pub open spec fn wheel_parts(pieces: Seq<Seq<char>>, tagged: bool) -> Option<
    (Seq<char>, Seq<char>),
> {
    if pieces.len() < 5 || !tagged {
        None
    } else {
        Some((pieces[0], pieces[1]))
    }
}

/// Where the first digit of a text stands; its length where there is none.
pub open spec fn first_digit(s: Seq<char>) -> int
    decreases s.len(),
{
    if s.len() == 0 || text::is_digit(s[0]) {
        0
    } else {
        1 + first_digit(s.skip(1))
    }
}

/// The distribution and version of a source archive: what stands before the
/// first digit, without the hyphens and underscores at its end, and the rest.
pub open spec fn sdist_parts(filename: Seq<char>) -> Option<(Seq<char>, Seq<char>)> {
    let stem = text::trim_end_text(filename, ".tar.gz"@);
    let i = first_digit(stem);
    let distribution = text::trim_end(text::trim_end(stem.take(i), '-'), '_');
    if i == stem.len() || distribution.len() == 0 {
        None
    } else {
        Some((distribution, stem.skip(i)))
    }
}

/// The distribution and version that the name of a package file gives.
pub open spec fn file_parts(filename: Seq<char>) -> Option<(Seq<char>, Seq<char>)> {
    if ".whl"@.is_suffix_of(filename) {
        wheel_parts(wheel_pieces(filename), is_tag(wheel_pieces(filename).last()))
    } else if ".tar.gz"@.is_suffix_of(filename) {
        sdist_parts(filename)
    } else {
        None
    }
}

/// What a pair of strings holds.
pub open spec fn pair_view(pair: Option<(String, String)>) -> Option<(Seq<char>, Seq<char>)> {
    match pair {
        Some((a, b)) => Some((a@, b@)),
        None => None,
    }
}

/// Reads the distribution and version from the name of a package file.
pub fn parse_package_filename(filename: &str) -> (r: Option<(String, String)>)
    ensures
        pair_view(r) == file_parts(filename@),
{
    if text::ends_with(filename, ".whl") {
        parse_wheel_filename(filename)
    } else if text::ends_with(filename, ".tar.gz") {
        parse_sdist_filename(filename)
    } else {
        None
    }
}

fn tag_of(tag: &str) -> (r: bool)
    ensures
        r == is_tag(tag@),
{
    let chars = text::chars_of(tag);
    let mut plain = true;
    let mut dotted = false;
    let mut i: usize = 0;
    while i < chars.len()
        invariant
            chars@ == tag@,
            i <= tag@.len(),
            dotted ==> tag@.contains('.'),
            !dotted ==> forall|j: int| 0 <= j < i ==> tag@[j] != '.',
            plain <==> forall|j: int|
                0 <= j < i ==> text::alphanumeric(#[trigger] tag@[j]) || tag@[j] == '_' || tag@[j]
                    == '.',
        decreases tag@.len() - i,
    {
        let c = chars[i];
        if c == '.' {
            proof {
                assert(tag@[i as int] == '.');
            }
            dotted = true;
        }
        if !(c.is_alphanumeric() || c == '_' || c == '.') {
            plain = false;
        }
        i += 1;
    }
    dotted || plain
}

/// The distribution and version of a wheel, given the pieces of its name and
/// whether the last of them is a tag.
pub fn wheel_fields(pieces: &Vec<String>, tagged: bool) -> (r: Option<(String, String)>)
    ensures
        pair_view(r) == wheel_parts(text::views(pieces@), tagged),
{
    if pieces.len() < 5 || !tagged {
        return None;
    }
    Some((pieces[0].clone(), pieces[1].clone()))
}

fn parse_wheel_filename(filename: &str) -> (r: Option<(String, String)>)
    ensures
        pair_view(r) == wheel_parts(
            wheel_pieces(filename@),
            is_tag(wheel_pieces(filename@).last()),
        ),
{
    proof {
        reveal_strlit(".whl");
    }
    let pieces = text::split_text(text::trim_end_str(filename, ".whl"), '-');
    proof {
        text::lemma_split_nonempty(text::trim_end_text(filename@, ".whl"@), '-');
        assert(text::views(pieces@).len() == pieces@.len());
    }
    let tagged = tag_of(pieces[pieces.len() - 1].as_str());
    wheel_fields(&pieces, tagged)
}

fn find_digit(s: &str) -> (r: usize)
    ensures
        r == first_digit(s@),
        r <= s@.len(),
{
    let chars = text::chars_of(s);
    let mut i: usize = 0;
    proof {
        assert(s@.skip(0) =~= s@);
    }
    while i < chars.len() && !('0' <= chars[i] && chars[i] <= '9')
        invariant
            chars@ == s@,
            i <= s@.len(),
            first_digit(s@) == i + first_digit(s@.skip(i as int)),
        decreases s@.len() - i,
    {
        proof {
            assert(s@.skip(i as int).skip(1) =~= s@.skip(i + 1));
        }
        i += 1;
    }
    i
}

fn parse_sdist_filename(filename: &str) -> (r: Option<(String, String)>)
    ensures
        pair_view(r) == sdist_parts(filename@),
{
    proof {
        reveal_strlit(".tar.gz");
    }
    let stem = text::trim_end_str(filename, ".tar.gz");
    let n: usize = stem.unicode_len();
    let i = find_digit(stem);
    if i == n {
        return None;
    }
    proof {
        assert(stem@.subrange(0, i as int) =~= stem@.take(i as int));
        assert(stem@.subrange(i as int, n as int) =~= stem@.skip(i as int));
    }
    let distribution = text::trim_end_char(
        text::trim_end_char(stem.substring_char(0, i), '-'),
        '_',
    );
    if distribution.is_empty() {
        return None;
    }
    Some((distribution.to_owned(), stem.substring_char(i, n).to_owned()))
}

/// The name of the source archive of a version.
pub open spec fn sdist_filename(package: Seq<char>, version: Seq<char>) -> Seq<char> {
    package + "-"@ + version + ".tar.gz"@
}

/// The name of the source archive of a version.
pub fn build_sdist_filename(package: &str, version: &str) -> (r: String)
    ensures
        r@ == sdist_filename(package@, version@),
{
    package.to_owned().concat("-").concat(version).concat(".tar.gz")
}

proof fn lemma_first_digit(s: Seq<char>, i: int)
    requires
        0 <= i < s.len(),
        text::is_digit(s[i]),
        forall|j: int| 0 <= j < i ==> !text::is_digit(#[trigger] s[j]),
    ensures
        first_digit(s) == i,
    decreases s.len(),
{
    if i > 0 {
        assert(!text::is_digit(s[0]));
        assert forall|j: int| 0 <= j < i - 1 implies !text::is_digit(#[trigger] s.skip(1)[j]) by {
            assert(s.skip(1)[j] == s[j + 1]);
        }
        lemma_first_digit(s.skip(1), i - 1);
    }
}

/// The name built for a source archive gives back its package and version. The
/// package has no digit in its name and no separator at its end, and the version
/// begins with a digit and does not itself end like an archive.
pub proof fn law_sdist_round_trip(package: Seq<char>, version: Seq<char>)
    requires
        package.len() > 0,
        package.last() != '-',
        package.last() != '_',
        forall|i: int| 0 <= i < package.len() ==> !text::is_digit(#[trigger] package[i]),
        version.len() > 0,
        text::is_digit(version[0]),
        !".tar.gz"@.is_suffix_of(package + "-"@ + version),
    ensures
        file_parts(sdist_filename(package, version)) == Some((package, version)),
{
    reveal_strlit(".whl");
    reveal_strlit(".tar.gz");
    reveal_strlit("-");
    let stem = package + "-"@ + version;
    let name = sdist_filename(package, version);
    let n = name.len() as int;
    assert(name =~= stem + ".tar.gz"@);
    assert(".tar.gz"@.is_suffix_of(name)) by {
        assert(name.subrange(stem.len() as int, n) =~= ".tar.gz"@);
    }
    assert(!".whl"@.is_suffix_of(name)) by {
        assert(name[n - 1] == 'z');
        if ".whl"@.is_suffix_of(name) {
            assert(name.subrange(n - 4, n)[3] == name[n - 1]);
        }
    }
    assert(name.take(n - 7) =~= stem);
    assert(text::trim_end_text(name, ".tar.gz"@) == text::trim_end_text(stem, ".tar.gz"@));
    assert(text::trim_end_text(stem, ".tar.gz"@) == stem);
    let i: int = package.len() + 1int;
    assert(stem[i] == version[0]);
    assert forall|j: int| 0 <= j < i implies !text::is_digit(#[trigger] stem[j]) by {
        if j < package.len() {
            assert(stem[j] == package[j]);
        }
    }
    lemma_first_digit(stem, i);
    assert(stem.skip(i) =~= version);
    let head = stem.take(i);
    assert(head =~= package.push('-'));
    assert(head.drop_last() =~= package);
    assert(text::trim_end(head, '-') == text::trim_end(package, '-'));
    assert(text::trim_end(package, '-') == package);
    assert(text::trim_end(package, '_') == package);
}

/// The name of the file that a path leads to.
pub open spec fn path_filename(path: Seq<char>) -> Seq<char> {
    text::after_last(text::before_first(path, '#'), '/')
}

/// The name of the file that a path leads to, without what stands behind a `#`.
pub fn extract_filename_from_path(path: &str) -> (r: String)
    ensures
        r@ == path_filename(path@),
{
    text::last_piece(text::first_piece(path, '#'), '/').to_owned()
}


/// When the first file of a release was uploaded, as it is written.
pub open spec fn upload_text(files: JsonView) -> Option<Seq<char>> {
    match files {
        JsonView::Array(items) => if items.len() > 0 {
            items[0].get_text("upload_time"@)
        } else {
            None
        },
        _ => None,
    }
}

/// The upload times of the releases that have one, as they are written.
pub open spec fn upload_texts(releases: Seq<(Seq<char>, JsonView)>) -> Seq<(Seq<char>, JsonView)>
    decreases releases.len(),
{
    if releases.len() == 0 {
        Seq::empty()
    } else {
        let (version, files) = releases.last();
        let front = upload_texts(releases.drop_last());
        match upload_text(files) {
            Some(t) => names::put(front, version, JsonView::Str(t)),
            None => front,
        }
    }
}

/// The time field that release metadata makes.
pub open spec fn release_times(releases: JsonView) -> Result<JsonView, ErrorView> {
    match releases {
        JsonView::Object(members) => if upload_texts(members).len() == 0 {
            Err(ErrorView::MissingTimeField)
        } else {
            Ok(JsonView::Object(upload_texts(members)))
        },
        _ => Err(ErrorView::InvalidTimeFormat("releases field is not a JSON object"@)),
    }
}

/// When the first file of a release was uploaded, as it is written.
pub fn first_upload_time(files: &Json) -> (r: Option<&str>)
    ensures
        match r {
            Some(t) => upload_text(files@) == Some(t@),
            None => upload_text(files@) is None,
        },
{
    match files {
        Json::Array(items) => {
            proof {
                json::lemma_array_view(*items);
            }
            if items.len() > 0 {
                items[0].get_str("upload_time")
            } else {
                None
            }
        },
        _ => None,
    }
}

/// Makes a time field from release metadata.
pub fn build_version_time_info_from_releases(releases: &Json) -> (r: Result<Json, DelayCheckError>)
    ensures
        match r {
            Ok(v) => release_times(releases@) == Ok::<JsonView, ErrorView>(v@),
            Err(e) => release_times(releases@) == Err::<JsonView, ErrorView>(e@),
        },
{
    let members = match releases {
        Json::Object(m) => m,
        _ => {
            return Err(
                DelayCheckError::InvalidTimeFormat(
                    "releases field is not a JSON object".to_owned(),
                ),
            );
        },
    };
    let ghost all = json::members_view(members@);
    let mut times = Json::object();
    let mut empty = true;
    let mut i: usize = 0;
    proof {
        json::lemma_object_view(*members);
        assert(all.take(0) =~= Seq::empty());
    }
    while i < members.len()
        invariant
            i <= members@.len(),
            all == json::members_view(members@),
            times@ == JsonView::Object(upload_texts(all.take(i as int))),
            empty == (upload_texts(all.take(i as int)).len() == 0),
        decreases members@.len() - i,
    {
        proof {
            assert(all.take(i + 1).drop_last() =~= all.take(i as int));
            assert(all.take(i + 1).last() == all[i as int]);
        }
        match first_upload_time(&members[i].1) {
            Some(t) => {
                proof {
                    let front = upload_texts(all.take(i as int));
                    let ghost_put = names::put(front, members@[i as int].0@, JsonView::Str(t@));
                    assert(ghost_put.len() > 0);
                }
                times = times.put(members[i].0.as_str(), Json::string(t));
                empty = false;
            },
            None => {},
        }
        i += 1;
    }
    proof {
        assert(all.take(all.len() as int) =~= all);
    }
    if empty {
        return Err(DelayCheckError::MissingTimeField);
    }
    Ok(times)
}

/// What reading an upload time comes to.
pub open spec fn upload_time(s: Seq<char>, time: Option<Timestamp>) -> Result<
    Timestamp,
    ErrorView,
> {
    match delay_check::time_or_error(s, time) {
        Ok(t) => Ok(t),
        Err(e) => Err(
            ErrorView::InvalidTimeFormat("invalid upload_time format: "@ + e.message()),
        ),
    }
}

/// The upload time, given whether the text names a moment.
pub fn require_upload_time(time_str: &str, time: Option<Timestamp>) -> (r: Result<
    Timestamp,
    DelayCheckError,
>)
    ensures
        delay_check::time_result(r) == upload_time(time_str@, time),
{
    match delay_check::require_time(time_str, time) {
        Ok(t) => Ok(t),
        Err(e) => Err(
            DelayCheckError::InvalidTimeFormat(
                "invalid upload_time format: ".to_owned().concat(e.to_string().as_str()),
            ),
        ),
    }
}

/// Reads an upload time.
pub fn parse_upload_time(time_str: &str) -> (r: Result<Timestamp, DelayCheckError>)
    ensures
        delay_check::time_result(r) == upload_time(
            time_str@,
            delay_check::flexible_time(time_str@),
        ),
{
    let time = match delay_check::parse_datetime_flexible(time_str) {
        Ok(t) => Some(t),
        Err(_) => None,
    };
    require_upload_time(time_str, time)
}

/// The files of a release.
pub open spec fn release_files(releases: JsonView, version: Seq<char>) -> Option<Seq<JsonView>> {
    match releases.get(version) {
        Some(JsonView::Array(items)) => Some(items),
        _ => None,
    }
}

/// The first file of that name.
pub open spec fn file_named(files: Seq<JsonView>, filename: Seq<char>) -> Option<JsonView>
    decreases files.len(),
{
    if files.len() == 0 {
        None
    } else if files[0].get_text("filename"@) == Some(filename) {
        Some(files[0])
    } else {
        file_named(files.skip(1), filename)
    }
}

/// Where a file of a release is found: the file of that name, else the first.
pub open spec fn download_url(releases: JsonView, version: Seq<char>, filename: Seq<char>) -> Option<
    Seq<char>,
> {
    match release_files(releases, version) {
        None => None,
        Some(files) => match file_named(files, filename) {
            Some(file) => file.get_text("url"@),
            None => if files.len() > 0 {
                files[0].get_text("url"@)
            } else {
                None
            },
        },
    }
}

/// The checksum of a file of a release.
pub open spec fn file_sha256(releases: JsonView, version: Seq<char>, filename: Seq<char>) -> Option<
    Seq<char>,
> {
    match release_files(releases, version) {
        None => None,
        Some(files) => match file_named(files, filename) {
            Some(file) => file.get_text("sha256_digest"@),
            None => None,
        },
    }
}

fn find_file<'a>(files: &'a Vec<Json>, filename: &str) -> (r: Option<&'a Json>)
    ensures
        match r {
            Some(f) => file_named(json::items_view(files@), filename@) == Some(f@),
            None => file_named(json::items_view(files@), filename@) is None,
        },
{
    let ghost all = json::items_view(files@);
    let mut i: usize = 0;
    proof {
        assert(all.skip(0) =~= all);
    }
    while i < files.len()
        invariant
            i <= files@.len(),
            all == json::items_view(files@),
            file_named(all, filename@) == file_named(all.skip(i as int), filename@),
        decreases files@.len() - i,
    {
        proof {
            assert(all.skip(i as int).skip(1) =~= all.skip(i + 1));
            assert(all.skip(i as int)[0] == all[i as int]);
        }
        match files[i].get_str("filename") {
            Some(name) => {
                if text::same(name, filename) {
                    return Some(&files[i]);
                }
            },
            None => {},
        }
        i += 1;
    }
    None
}

fn files_of<'a>(releases: &'a Json, version: &str) -> (r: Option<&'a Vec<Json>>)
    ensures
        match r {
            Some(files) => release_files(releases@, version@) == Some(json::items_view(files@)),
            None => release_files(releases@, version@) is None,
        },
{
    match releases.get(version) {
        Some(v) => match v {
            Json::Array(items) => {
                proof {
                    json::lemma_array_view(*items);
                }
                Some(items)
            },
            _ => None,
        },
        None => None,
    }
}

fn owned_text(s: Option<&str>) -> (r: Option<String>)
    ensures
        match s {
            Some(t) => text::opt_view(r) == Some(t@),
            None => r is None,
        },
{
    match s {
        Some(t) => Some(t.to_owned()),
        None => None,
    }
}

/// Where a file of a release is found.
pub fn find_download_url_for_version(releases: &Json, version: &str, filename: &str) -> (r: Option<
    String,
>)
    ensures
        text::opt_view(r) == download_url(releases@, version@, filename@),
{
    match files_of(releases, version) {
        None => None,
        Some(files) => match find_file(files, filename) {
            Some(file) => owned_text(file.get_str("url")),
            None => if files.len() > 0 {
                owned_text(files[0].get_str("url"))
            } else {
                None
            },
        },
    }
}

/// The checksum of a file of a release.
pub fn find_sha256_for_file(releases: &Json, version: &str, filename: &str) -> (r: Option<String>)
    ensures
        text::opt_view(r) == file_sha256(releases@, version@, filename@),
{
    match files_of(releases, version) {
        None => None,
        Some(files) => match find_file(files, filename) {
            Some(file) => owned_text(file.get_str("sha256_digest")),
            None => None,
        },
    }
}


/// Where the metadata of a package is found, given its normalised name.
pub open spec fn json_url(json_api_base: Seq<char>, normalized: Seq<char>) -> Seq<char> {
    json_api_base + "/"@ + normalized + "/json"@
}

/// Where the metadata of a package is found, given its normalised name.
pub fn normalized_json_url(json_api_base: &str, normalized: &str) -> (r: String)
    ensures
        r@ == json_url(json_api_base@, normalized@),
{
    json_api_base.to_owned().concat("/").concat(normalized).concat("/json")
}

/// Where the metadata of a package is found.
pub fn release_info_url(package: &str, json_api_base: &str) -> (r: String)
    ensures
        r@ == json_url(json_api_base@, text::lowercase(collapse(package@))),
        text::is_ascii(package@) ==> r@ == json_url(
            json_api_base@,
            text::ascii_lowered(collapse(package@)),
        ),
{
    let normalized = normalize_package_name(package);
    normalized_json_url(json_api_base, normalized.as_str())
}

/// The metadata of a package, or the status and message of an error.
pub open spec fn release_info_of(package: Seq<char>, fetched: FetchedView) -> Result<
    JsonView,
    (u16, Seq<char>),
> {
    match fetched {
        FetchedView::Failed(e) => Err(
            (502u16, "Failed to connect to PyPI JSON API: "@ + e),
        ),
        FetchedView::Answered { status, body } => if status == 404 {
            Err((404u16, "Package not found on PyPI: "@ + package))
        } else if !fetch::success(status) {
            Err((502u16, "PyPI JSON API error, status: "@ + text::decimal(status as int)))
        } else {
            match body {
                Ok(v) => Ok(v),
                Err(e) => Err((500u16, "Failed to parse PyPI JSON API response: "@ + e)),
            }
        },
    }
}

/// The metadata of a package from what came of asking for it.
pub fn release_info(package: &str, fetched: Fetched) -> (r: Result<Json, (u16, String)>)
    ensures
        match r {
            Ok(v) => release_info_of(package@, fetched@) == Ok::<JsonView, (u16, Seq<char>)>(v@),
            Err((status, message)) => release_info_of(package@, fetched@) == Err::<
                JsonView,
                (u16, Seq<char>),
            >((status, message@)),
        },
{
    match fetched {
        Fetched::Failed(e) => Err(
            (502, "Failed to connect to PyPI JSON API: ".to_owned().concat(e.as_str())),
        ),
        Fetched::Answered { status, body } => {
            if status == 404 {
                return Err((404, "Package not found on PyPI: ".to_owned().concat(package)));
            }
            if !fetch::is_success(status) {
                let code = text::decimal_text(status as i64);
                return Err(
                    (502, "PyPI JSON API error, status: ".to_owned().concat(code.as_str())),
                );
            }
            match body {
                Ok(v) => Ok(v),
                Err(e) => Err(
                    (
                        500,
                        "Failed to parse PyPI JSON API response: ".to_owned().concat(e.as_str()),
                    ),
                ),
            }
        },
    }
}

/// What to do for a download: answer, or look whether the mirror has the file
/// and answer by what is found.
#[derive(Debug, PartialEq)]
pub enum DownloadPlan {
    Answer(Reply),
    TryMirror { mirror_url: String, found: Reply, otherwise: Reply },
}

/// What a plan says.
#[verifier::ext_equal]
pub enum PlanView {
    Answer(ReplyView),
    TryMirror { mirror_url: Seq<char>, found: ReplyView, otherwise: ReplyView },
}

impl View for DownloadPlan {
    type V = PlanView;

    open spec fn view(&self) -> PlanView {
        match self {
            DownloadPlan::Answer(r) => PlanView::Answer(r@),
            DownloadPlan::TryMirror { mirror_url, found, otherwise } => PlanView::TryMirror {
                mirror_url: mirror_url@,
                found: found@,
                otherwise: otherwise@,
            },
        }
    }
}

impl DownloadPlan {
    /// The answer, given whether the mirror has the file.
    pub fn settle(self, mirror_has_it: bool) -> (r: Reply)
        ensures
            r@ == (match self@ {
                PlanView::Answer(a) => a,
                PlanView::TryMirror { found, otherwise, .. } => if mirror_has_it {
                    found
                } else {
                    otherwise
                },
            }),
    {
        match self {
            DownloadPlan::Answer(a) => a,
            DownloadPlan::TryMirror { mirror_url: _, found, otherwise } => if mirror_has_it {
                found
            } else {
                otherwise
            },
        }
    }
}

/// Where the mirror would have a file.
pub open spec fn mirror_url(mirror: Seq<char>, file: Seq<char>) -> Seq<char> {
    text::trim_end(mirror, '/') + "/"@ + file
}

/// The reason why a version is withheld.
pub open spec fn too_recent(days: i64) -> Seq<char> {
    "Version was published within the last "@ + text::decimal(days as int) + " day(s)"@
}

/// The reason why a version is withheld.
pub fn too_recent_text(days: i64) -> (r: String)
    ensures
        r@ == too_recent(days),
{
    "Version was published within the last ".to_owned().concat(
        text::decimal_text(days).as_str(),
    ).concat(" day(s)")
}

/// The version to suggest in place of another, if there is one.
pub open spec fn suggestion(
    times: Seq<(Seq<char>, Timestamp)>,
    cutoff: Timestamp,
    version: Seq<char>,
) -> Option<Seq<char>> {
    match delay_check::substitute(times, cutoff, version) {
        Ok(v) => v,
        Err(_) => None,
    }
}

/// The version to suggest in place of another, if there is one.
pub fn suggested_version(checker: &DelayChecker, version: &str, time_info: &VersionTimeInfo) -> (r:
    Option<String>)
    ensures
        text::opt_view(r) == suggestion(time_info@, checker.cutoff(), version@),
{
    match checker.find_eligible_version(version, time_info) {
        Ok(v) => v,
        Err(_) => None,
    }
}

/// What is said of a version that is withheld.
pub open spec fn denial(
    package: Seq<char>,
    version: Seq<char>,
    reason: Seq<char>,
    suggested: Option<Seq<char>>,
) -> JsonView {
    JsonView::object().put("error"@, JsonView::Str("Version too recent for download"@)).put(
        "package"@,
        JsonView::Str(package),
    ).put("requested_version"@, JsonView::Str(version)).put(
        "reason"@,
        JsonView::Str(reason),
    ).put("suggested_version"@, JsonView::optional(suggested))
}

/// What is said of a version that is withheld.
pub fn denial_json(package: &str, version: &str, reason: &str, suggested: &Option<String>) -> (r:
    Json)
    ensures
        r@ == denial(package@, version@, reason@, text::opt_view(*suggested)),
{
    Json::object().put("error", Json::string("Version too recent for download")).put(
        "package",
        Json::string(package),
    ).put("requested_version", Json::string(version)).put("reason", Json::string(reason)).put(
        "suggested_version",
        Json::optional(suggested),
    )
}

/// The name of the file to serve in place of one of another version.
pub open spec fn redirected_filename(
    filename: Seq<char>,
    package: Seq<char>,
    version: Seq<char>,
    suggested: Seq<char>,
) -> Seq<char> {
    if ".whl"@.is_suffix_of(filename) {
        text::replace(filename, "-"@ + version + "-"@, "-"@ + suggested + "-"@)
    } else {
        sdist_filename(package, suggested)
    }
}

/// The name of the file to serve in place of one of another version.
pub fn redirect_filename(filename: &str, package: &str, version: &str, suggested: &str) -> (r:
    String)
    ensures
        r@ == redirected_filename(filename@, package@, version@, suggested@),
{
    if text::ends_with(filename, ".whl") {
        let from = "-".to_owned().concat(version).concat("-");
        let to = "-".to_owned().concat(suggested).concat("-");
        proof {
            reveal_strlit("-");
        }
        text::replace_text(filename, from.as_str(), to.as_str())
    } else {
        build_sdist_filename(package, suggested)
    }
}

/// A redirection to the mirror's copy of a file.
pub open spec fn found_reply(url: Seq<char>) -> ReplyView {
    ReplyView::new(302, BodyView::Empty).header("location"@, url)
}

/// A redirection to a file of another version than was asked for.
pub open spec fn downgraded_reply(url: Seq<char>, version: Seq<char>, suggested: Seq<char>) -> ReplyView {
    ReplyView::redirect(url).header("X-Delay-Original-Version"@, version).header(
        "X-Delay-Redirected-Version"@,
        suggested,
    ).header("X-Delay-Reason"@, "Version too recent, auto-downloaded for security"@)
}

/// Either of two texts, the first where there is one.
pub open spec fn or_else(s: Option<Seq<char>>, default: Seq<char>) -> Seq<char> {
    match s {
        Some(t) => t,
        None => default,
    }
}

/// The plan to look on the mirror, where there is one.
pub open spec fn with_mirror(
    config: Config,
    file: Seq<char>,
    found: ReplyView,
    otherwise: ReplyView,
) -> PlanView {
    if config.pypi_download_mirror@.len() == 0 {
        PlanView::Answer(otherwise)
    } else {
        PlanView::TryMirror {
            mirror_url: mirror_url(config.pypi_download_mirror@, file),
            found,
            otherwise,
        }
    }
}

/// The plan for a file whose release is listed, given the times of all releases.
pub open spec fn listed_plan(
    config: Config,
    days: i64,
    cutoff: Timestamp,
    path: Seq<char>,
    package: Seq<char>,
    version: Seq<char>,
    releases: JsonView,
    times: Seq<(Seq<char>, Timestamp)>,
) -> PlanView {
    let filename = path_filename(path);
    match delay_check::resolution(times, cutoff, version) {
        Ok(CheckView::Allowed) => with_mirror(
            config,
            path,
            found_reply(mirror_url(config.pypi_download_mirror@, path)),
            ReplyView::redirect(
                or_else(
                    download_url(releases, version, filename),
                    config.pypi_download_base@ + "/"@ + path,
                ),
            ),
        ),
        Ok(CheckView::Downgraded { suggested_version, .. }) => {
            let file = redirected_filename(filename, package, version, suggested_version);
            with_mirror(
                config,
                file,
                downgraded_reply(
                    mirror_url(config.pypi_download_mirror@, file),
                    version,
                    suggested_version,
                ),
                downgraded_reply(
                    or_else(
                        download_url(releases, suggested_version, file),
                        config.pypi_download_base@ + "/"@ + file,
                    ),
                    version,
                    suggested_version,
                ),
            )
        },
        Ok(CheckView::Denied { .. }) => PlanView::Answer(
            ReplyView::labelled_json(
                403,
                denial(package, version, too_recent(days), suggestion(times, cutoff, version)),
            ).header("X-Delay-Original-Version"@, version).header(
                "X-Delay-Reason"@,
                "Version published too recently, below delay threshold"@,
            ),
        ),
        Err(ErrorView::VersionNotFound(_)) => PlanView::Answer(
            ReplyView::error(
                404,
                "Version not found in package releases: package="@ + package + ", version="@
                    + version,
            ),
        ),
        Err(e) => PlanView::Answer(ReplyView::error(500, "Delay check failed: "@ + e.message())),
    }
}

/// The plan for a file of a package, given the metadata of the package.
pub open spec fn download_plan(
    config: Config,
    days: i64,
    cutoff: Timestamp,
    path: Seq<char>,
    package: Seq<char>,
    version: Seq<char>,
    metadata: JsonView,
) -> PlanView {
    match metadata.get("releases"@) {
        None => PlanView::Answer(
            ReplyView::error(
                500,
                "Unable to determine version age: PyPI JSON API response does not contain 'releases' field"@,
            ),
        ),
        Some(releases) => match releases.get(version) {
            None => {
                let url = mirror_url(config.pypi_download_mirror@, path);
                with_mirror(
                    config,
                    path,
                    found_reply(url).header(
                        "X-Delay-Warning"@,
                        "Version not in JSON API, using mirror directly"@,
                    ),
                    ReplyView::redirect(config.pypi_download_base@ + "/"@ + path),
                )
            },
            Some(files) => match upload_text(files) {
                None => PlanView::Answer(
                    ReplyView::error(
                        500,
                        "Upload time not found: Release files do not contain upload_time information"@,
                    ),
                ),
                Some(t) => match upload_time(t, delay_check::flexible_time(t)) {
                    Err(e) => PlanView::Answer(
                        ReplyView::error(500, "Failed to parse upload time: "@ + e.message()),
                    ),
                    Ok(_) => match release_times(releases) {
                        Err(e) => PlanView::Answer(
                            ReplyView::error(
                                500,
                                "Failed to build version timing info: "@ + e.message(),
                            ),
                        ),
                        Ok(field) => match delay_check::field_times(field) {
                            Err(e) => PlanView::Answer(
                                ReplyView::error(
                                    500,
                                    "Failed to parse version timing information: "@ + e.message(),
                                ),
                            ),
                            Ok(times) => listed_plan(
                                config,
                                days,
                                cutoff,
                                path,
                                package,
                                version,
                                releases,
                                times,
                            ),
                        },
                    },
                },
            },
        },
    }
}

fn mirror_text(mirror: &str, file: &str) -> (r: String)
    ensures
        r@ == mirror_url(mirror@, file@),
{
    text::trim_end_char(mirror, '/').to_owned().concat("/").concat(file)
}

fn found_at(url: &str) -> (r: Reply)
    ensures
        r@ == found_reply(url@),
{
    Reply::new(302, Body::Empty).header("location", url)
}

fn downgraded_to(url: &str, version: &str, suggested: &str) -> (r: Reply)
    ensures
        r@ == downgraded_reply(url@, version@, suggested@),
{
    Reply::redirect(url).header("X-Delay-Original-Version", version).header(
        "X-Delay-Redirected-Version",
        suggested,
    ).header("X-Delay-Reason", "Version too recent, auto-downloaded for security")
}

fn plan_with_mirror(config: &Config, file: &str, found: Reply, otherwise: Reply) -> (r:
    DownloadPlan)
    ensures
        r@ == with_mirror(*config, file@, found@, otherwise@),
{
    if config.pypi_download_mirror.as_str().is_empty() {
        DownloadPlan::Answer(otherwise)
    } else {
        DownloadPlan::TryMirror {
            mirror_url: mirror_text(config.pypi_download_mirror.as_str(), file),
            found,
            otherwise,
        }
    }
}

/// Either of two texts, the first where there is one.
pub(crate) fn string_or_else(s: Option<String>, default: String) -> (r: String)
    ensures
        r@ == or_else(text::opt_view(s), default@),
{
    match s {
        Some(t) => t,
        None => default,
    }
}

/// The lines of the log for a file.
pub open spec fn file_lines(
    days: i64,
    cutoff: Timestamp,
    package: Seq<char>,
    version: Seq<char>,
    times: Seq<(Seq<char>, Timestamp)>,
    client_ip: Option<Seq<char>>,
) -> Seq<LogView> {
    match delay_check::resolution(times, cutoff, version) {
        Ok(CheckView::Downgraded { suggested_version, .. }) => seq![
            LogView::downgraded(
                PackageType::PyPI,
                package,
                version,
                suggested_version,
                "Version too recent, auto-downloaded for security"@,
                client_ip,
            ),
        ],
        Ok(CheckView::Denied { .. }) => seq![
            LogView::blocked(PackageType::PyPI, package, version, too_recent(days), client_ip),
        ],
        Ok(CheckView::Allowed) => seq![
            LogView::allowed(PackageType::PyPI, package, version, client_ip),
        ],
        Err(_) => Seq::empty(),
    }
}

/// The lines of the log for a file, given the times of all releases.
pub fn log_file(
    checker: &DelayChecker,
    package: &str,
    version: &str,
    time_info: &VersionTimeInfo,
    client_ip: Option<&str>,
) -> (r: Vec<DelayLogEntry>)
    ensures
        delay_logger::all_dated(r@),
        delay_logger::log_views(r@) == file_lines(
            checker.days(),
            checker.cutoff(),
            package@,
            version@,
            time_info@,
            text::slice_view(client_ip),
        ),
{
    let logger = DelayLogger::new();
    match checker.resolve_version(version, time_info) {
        Ok(VersionCheckResult::Allowed) => delay_logger::one_entry(
            logger.log_allowed(PackageType::PyPI, package, version, client_ip),
        ),
        Ok(VersionCheckResult::Downgraded { suggested_version, .. }) => delay_logger::one_entry(
            logger.log_downgraded(
                PackageType::PyPI,
                package,
                version,
                suggested_version.as_str(),
                "Version too recent, auto-downloaded for security",
                client_ip,
            ),
        ),
        Ok(VersionCheckResult::Denied { .. }) => {
            let reason = too_recent_text(checker.delay_days());
            delay_logger::one_entry(
                logger.log_blocked(
                    PackageType::PyPI,
                    package,
                    version,
                    reason.as_str(),
                    client_ip,
                ),
            )
        },
        Err(_) => delay_logger::no_entries(),
    }
}

/// Plans the answer for a file whose release is listed, given the times of all
/// releases.
pub fn plan_listed(
    config: &Config,
    checker: &DelayChecker,
    path: &str,
    package: &str,
    version: &str,
    releases: &Json,
    time_info: &VersionTimeInfo,
) -> (r: DownloadPlan)
    ensures
        r@ == listed_plan(
            *config,
            checker.days(),
            checker.cutoff(),
            path@,
            package@,
            version@,
            releases@,
            time_info@,
        ),
{
    let filename = extract_filename_from_path(path);
    match checker.resolve_version(version, time_info) {
        Ok(VersionCheckResult::Allowed) => {
            let mirrored = mirror_text(config.pypi_download_mirror.as_str(), path);
            let upstream = string_or_else(
                find_download_url_for_version(releases, version, filename.as_str()),
                config.pypi_download_base.clone().concat("/").concat(path),
            );
            plan_with_mirror(
                config,
                path,
                found_at(mirrored.as_str()),
                Reply::redirect(upstream.as_str()),
            )
        },
        Ok(VersionCheckResult::Downgraded { suggested_version, .. }) => {
            let suggested = suggested_version.as_str();
            let file = redirect_filename(filename.as_str(), package, version, suggested);
            let mirrored = mirror_text(config.pypi_download_mirror.as_str(), file.as_str());
            let upstream = string_or_else(
                find_download_url_for_version(releases, suggested, file.as_str()),
                config.pypi_download_base.clone().concat("/").concat(file.as_str()),
            );
            plan_with_mirror(
                config,
                file.as_str(),
                downgraded_to(mirrored.as_str(), version, suggested),
                downgraded_to(upstream.as_str(), version, suggested),
            )
        },
        Ok(VersionCheckResult::Denied { .. }) => {
            let suggested = suggested_version(checker, version, time_info);
            let reason = too_recent_text(checker.delay_days());
            DownloadPlan::Answer(
                Reply::labelled_json(
                    403,
                    denial_json(package, version, reason.as_str(), &suggested),
                ).header("X-Delay-Original-Version", version).header(
                    "X-Delay-Reason",
                    "Version published too recently, below delay threshold",
                ),
            )
        },
        Err(e) => {
            if let DelayCheckError::VersionNotFound { .. } = e {
                let message = "Version not found in package releases: package=".to_owned().concat(
                    package,
                ).concat(", version=").concat(version);
                DownloadPlan::Answer(Reply::error(404, message.as_str()))
            } else {
                let message = "Delay check failed: ".to_owned().concat(e.to_string().as_str());
                DownloadPlan::Answer(Reply::error(500, message.as_str()))
            }
        },
    }
}

/// The times of the releases that metadata lists, where a file of the version is
/// among them.
pub open spec fn checked_times(metadata: JsonView, version: Seq<char>) -> Option<
    Seq<(Seq<char>, Timestamp)>,
> {
    match metadata.get("releases"@) {
        Some(releases) => match releases.get(version) {
            Some(files) => match upload_text(files) {
                Some(t) if upload_time(t, delay_check::flexible_time(t)) is Ok => match release_times(
                    releases,
                ) {
                    Ok(field) => match delay_check::field_times(field) {
                        Ok(times) => Some(times),
                        Err(_) => None,
                    },
                    Err(_) => None,
                },
                _ => None,
            },
            None => None,
        },
        None => None,
    }
}

/// The lines of the log for a file, given the metadata of the package: none where
/// its version cannot be checked.
pub open spec fn download_lines(
    days: i64,
    cutoff: Timestamp,
    package: Seq<char>,
    version: Seq<char>,
    metadata: JsonView,
    client_ip: Option<Seq<char>>,
) -> Seq<LogView> {
    match checked_times(metadata, version) {
        Some(times) => file_lines(days, cutoff, package, version, times, client_ip),
        None => Seq::empty(),
    }
}

fn unlogged(plan: DownloadPlan) -> (r: (DownloadPlan, Vec<DelayLogEntry>))
    ensures
        r.0 == plan,
        delay_logger::all_dated(r.1@),
        delay_logger::log_views(r.1@) == Seq::<LogView>::empty(),
{
    (plan, delay_logger::no_entries())
}

/// Plans the answer for a file of a package, given the metadata of the package.
pub fn handle_pypi_download(
    config: &Config,
    checker: &DelayChecker,
    path: &str,
    package: &str,
    version: &str,
    metadata: &Json,
    client_ip: Option<&str>,
) -> (r: (DownloadPlan, Vec<DelayLogEntry>))
    ensures
        delay_logger::all_dated(r.1@),
        r.0@ == download_plan(
            *config,
            checker.days(),
            checker.cutoff(),
            path@,
            package@,
            version@,
            metadata@,
        ),
        delay_logger::log_views(r.1@) == download_lines(
            checker.days(),
            checker.cutoff(),
            package@,
            version@,
            metadata@,
            text::slice_view(client_ip),
        ),
{
    let releases = match metadata.get("releases") {
        Some(v) => v,
        None => {
            let reply = Reply::error(
                500,
                "Unable to determine version age: PyPI JSON API response does not contain 'releases' field",
            );
            return unlogged(DownloadPlan::Answer(reply));
        },
    };
    let files = match releases.get(version) {
        Some(v) => v,
        None => {
            let mirrored = mirror_text(config.pypi_download_mirror.as_str(), path);
            let upstream = config.pypi_download_base.clone().concat("/").concat(path);
            let plan = plan_with_mirror(
                config,
                path,
                found_at(mirrored.as_str()).header(
                    "X-Delay-Warning",
                    "Version not in JSON API, using mirror directly",
                ),
                Reply::redirect(upstream.as_str()),
            );
            return unlogged(plan);
        },
    };
    match first_upload_time(files) {
        None => {
            let reply = Reply::error(
                500,
                "Upload time not found: Release files do not contain upload_time information",
            );
            return unlogged(DownloadPlan::Answer(reply));
        },
        Some(t) => match parse_upload_time(t) {
            Ok(_) => {},
            Err(e) => {
                let message = "Failed to parse upload time: ".to_owned().concat(
                    e.to_string().as_str(),
                );
                return unlogged(DownloadPlan::Answer(Reply::error(500, message.as_str())));
            },
        },
    }
    let field = match build_version_time_info_from_releases(releases) {
        Ok(v) => v,
        Err(e) => {
            let message = "Failed to build version timing info: ".to_owned().concat(
                e.to_string().as_str(),
            );
            return unlogged(DownloadPlan::Answer(Reply::error(500, message.as_str())));
        },
    };
    let time_info = match checker.parse_time_field(&field) {
        Ok(info) => info,
        Err(e) => {
            let message = "Failed to parse version timing information: ".to_owned().concat(
                e.to_string().as_str(),
            );
            return unlogged(DownloadPlan::Answer(Reply::error(500, message.as_str())));
        },
    };
    let plan = plan_listed(config, checker, path, package, version, releases, &time_info);
    (plan, log_file(checker, package, version, &time_info, client_ip))
}

/// The package and version that a download asks for, or the answer where the
/// file is of neither kind.
pub fn download_request(path: &str) -> (r: Result<(String, String), Reply>)
    ensures
        match r {
            Ok((package, version)) => file_parts(path_filename(path@)) == Some(
                (package@, version@),
            ),
            Err(reply) => file_parts(path_filename(path@)) is None && reply@ == ReplyView::error(
                400,
                "Invalid filename format: Filename must be a valid wheel (.whl) or sdist (.tar.gz) format"@,
            ),
        },
{
    let filename = extract_filename_from_path(path);
    match parse_package_filename(filename.as_str()) {
        Some(parts) => Ok(parts),
        None => Err(
            Reply::error(
                400,
                "Invalid filename format: Filename must be a valid wheel (.whl) or sdist (.tar.gz) format",
            ),
        ),
    }
}

/// Redirects to the index of all packages.
pub fn handle_pypi_simple_index(config: &Config) -> (r: Reply)
    ensures
        r@ == ReplyView::redirect(text::trim_end(config.pypi_simple_index@, '/') + "/"@),
{
    let url = text::trim_end_char(config.pypi_simple_index.as_str(), '/').to_owned().concat("/");
    Reply::redirect(url.as_str())
}

/// Redirects to the list of files of a package, given its normalised name.
pub fn normalized_package_list(config: &Config, normalized: &str) -> (r: Reply)
    ensures
        r@ == ReplyView::redirect(
            text::trim_end(config.pypi_simple_index@, '/') + "/"@ + normalized@ + "/"@,
        ),
{
    let url = text::trim_end_char(config.pypi_simple_index.as_str(), '/').to_owned().concat(
        "/",
    ).concat(normalized).concat("/");
    Reply::redirect(url.as_str())
}

/// Redirects to the list of files of a package.
pub fn handle_pypi_package_list(config: &Config, package: &str) -> (r: Reply)
    ensures
        r@ == ReplyView::redirect(
            text::trim_end(config.pypi_simple_index@, '/') + "/"@ + text::lowercase(
                collapse(package@),
            ) + "/"@,
        ),
        text::is_ascii(package@) ==> r@ == ReplyView::redirect(
            text::trim_end(config.pypi_simple_index@, '/') + "/"@ + text::ascii_lowered(
                collapse(package@),
            ) + "/"@,
        ),
{
    let normalized = normalize_package_name(package);
    normalized_package_list(config, normalized.as_str())
}

/// Replacing a word between hyphens by another keeps the number of pieces, the
/// first and the last.
#[verifier::spinoff_prover]
#[verifier::rlimit(60)]
proof fn lemma_replace_pieces(s: Seq<char>, old_word: Seq<char>, new_word: Seq<char>)
    requires
        !old_word.contains('-'),
        !new_word.contains('-'),
    ensures
        ({
            let before = text::split(s, '-');
            let after = text::split(
                text::replace(s, "-"@ + old_word + "-"@, "-"@ + new_word + "-"@),
                '-',
            );
            &&& after.len() == before.len()
            &&& after[0] == before[0]
            &&& after.last() == before.last()
        }),
    decreases s.len(),
{
    reveal_strlit("-");
    assert("-"@ =~= seq!['-']);
    let from = "-"@ + old_word + "-"@;
    let to = "-"@ + new_word + "-"@;
    text::lemma_split_nonempty(s, '-');
    if s.len() >= from.len() {
        if from.is_prefix_of(s) {
            let rest = s.skip(from.len() as int);
            let changed = text::replace(rest, from, to);
            let none = Seq::<char>::empty();
            lemma_replace_pieces(rest, old_word, new_word);
            text::lemma_split_nonempty(rest, '-');
            text::lemma_split_nonempty(changed, '-');
            assert(s =~= none + seq!['-'] + (old_word + seq!['-'] + rest)) by {
                assert(s =~= from + rest);
            }
            text::lemma_split_head(none, old_word + seq!['-'] + rest, '-');
            text::lemma_split_head(old_word, rest, '-');
            assert(to + changed =~= none + seq!['-'] + (new_word + seq!['-'] + changed));
            text::lemma_split_head(none, new_word + seq!['-'] + changed, '-');
            text::lemma_split_head(new_word, changed, '-');
        } else {
            let rest = s.skip(1);
            let changed = text::replace(rest, from, to);
            lemma_replace_pieces(rest, old_word, new_word);
            assert(s =~= seq![s[0]] + rest);
            text::lemma_split_first(s[0], rest, '-');
            text::lemma_split_first(s[0], changed, '-');
            text::lemma_split_nonempty(rest, '-');
        }
    }
}

/// The first word between hyphens is replaced where it is the one looked for.
proof fn lemma_replace_second(
    head: Seq<char>,
    rest: Seq<char>,
    old_word: Seq<char>,
    new_word: Seq<char>,
)
    requires
        !head.contains('-'),
    ensures
        ({
            let from = "-"@ + old_word + "-"@;
            let to = "-"@ + new_word + "-"@;
            text::replace(head + from + rest, from, to) == head + to + text::replace(
                rest,
                from,
                to,
            )
        }),
    decreases head.len(),
{
    reveal_strlit("-");
    let from = "-"@ + old_word + "-"@;
    let to = "-"@ + new_word + "-"@;
    let s = head + from + rest;
    if head.len() == 0 {
        assert(s =~= from + rest);
        assert(s.subrange(0, from.len() as int) =~= from);
        assert(s.skip(from.len() as int) =~= rest);
        assert(to + text::replace(rest, from, to) =~= head + to + text::replace(rest, from, to));
    } else {
        let tail = head.skip(1);
        assert(head.contains(head[0]));
        assert forall|i: int| 0 <= i < tail.len() implies tail[i] != '-' by {
            assert(head[i + 1] == tail[i]);
            assert(head.contains(head[i + 1]));
        }
        lemma_replace_second(tail, rest, old_word, new_word);
        assert(s[0] == head[0]);
        assert(from[0] == '-');
        if from.is_prefix_of(s) {
            assert(s.subrange(0, from.len() as int)[0] == s[0]);
        }
        assert(s.skip(1) =~= tail + from + rest);
        assert(seq![head[0]] + (tail + to + text::replace(rest, from, to)) =~= head + to
            + text::replace(rest, from, to));
    }
}

/// The wheel to serve in place of another is one of the same package and of the
/// version that stands in, as long as that version has no hyphen.
#[verifier::spinoff_prover]
#[verifier::rlimit(60)]
pub proof fn law_redirected_wheel(
    filename: Seq<char>,
    package: Seq<char>,
    version: Seq<char>,
    suggested: Seq<char>,
)
    requires
        ".whl"@.is_suffix_of(filename),
        file_parts(filename) == Some((package, version)),
        !suggested.contains('-'),
    ensures
        file_parts(redirected_filename(filename, package, version, suggested)) == Some(
            (package, suggested),
        ),
{
    reveal_strlit("-");
    reveal_strlit(".whl");
    assert("-"@ =~= seq!['-']);
    let whl = ".whl"@;
    assert(!whl.contains('-'));
    let from = "-"@ + version + "-"@;
    let to = "-"@ + suggested + "-"@;
    let all = text::split(filename, '-');
    text::lemma_split_nonempty(filename, '-');
    text::lemma_split_trim(filename, whl, '-');
    assert(all.len() >= 5 && all[0] == package && all[1] == version);
    let first_rest = text::lemma_split_cut(filename, '-');
    let rest = text::lemma_split_cut(first_rest, '-');
    assert(text::split(first_rest, '-')[0] == version);
    assert(filename =~= package + from + rest);
    assert(text::split(rest, '-') =~= all.skip(2));
    lemma_replace_second(package, rest, version, suggested);
    lemma_replace_pieces(rest, version, suggested);
    let changed = text::replace(rest, from, to);
    let name = redirected_filename(filename, package, version, suggested);
    assert(name == package + to + changed);
    assert(name =~= package + seq!['-'] + (suggested + seq!['-'] + changed));
    text::lemma_split_head(package, suggested + seq!['-'] + changed, '-');
    text::lemma_split_head(suggested, changed, '-');
    text::lemma_split_nonempty(changed, '-');
    let pieces = text::split(name, '-');
    assert(pieces.len() == all.len());
    assert(pieces[0] == package && pieces[1] == suggested);
    assert(pieces.last() == text::split(changed, '-').last());
    assert(pieces.last() == all.last());
    text::lemma_split_trim(name, whl, '-');
}

/// A file is redirected only to the file of a version that is old enough.
pub proof fn law_listed_plan_old_enough(
    config: Config,
    days: i64,
    cutoff: Timestamp,
    path: Seq<char>,
    package: Seq<char>,
    version: Seq<char>,
    releases: JsonView,
    times: Seq<(Seq<char>, Timestamp)>,
)
    requires
        names::in_order(times),
        names::lookup(times, version) matches Some(t) && !t.le(cutoff),
    ensures
        ({
            let plan = listed_plan(
                config,
                days,
                cutoff,
                path,
                package,
                version,
                releases,
                times,
            );
            match delay_check::newest(delay_check::eligible(times, cutoff)) {
                None => plan matches PlanView::Answer(reply) && reply.status == 403,
                Some(best) => {
                    let file = redirected_filename(path_filename(path), package, version, best);
                    &&& names::lookup(times, best) matches Some(t)
                    &&& t.le(cutoff)
                    &&& plan == with_mirror(
                        config,
                        file,
                        downgraded_reply(
                            mirror_url(config.pypi_download_mirror@, file),
                            version,
                            best,
                        ),
                        downgraded_reply(
                            or_else(
                                download_url(releases, best, file),
                                config.pypi_download_base@ + "/"@ + file,
                            ),
                            version,
                            best,
                        ),
                    )
                },
            }
        }),
{
    let list = delay_check::eligible(times, cutoff);
    delay_check::law_newest(list);
    if let Some(best) = delay_check::newest(list) {
        delay_check::law_eligible(times, cutoff, best);
    }
}

/// What is said of a version that is withheld names the package, the version, the
/// reason and the version to take instead.
pub proof fn law_denial_members(
    package: Seq<char>,
    version: Seq<char>,
    reason: Seq<char>,
    suggested: Option<Seq<char>>,
)
    ensures
        ({
            let d = denial(package, version, reason, suggested);
            &&& d matches JsonView::Object(m)
            &&& names::in_order(m)
            &&& d.get("error"@) == Some(JsonView::Str("Version too recent for download"@))
            &&& d.get("package"@) == Some(JsonView::Str(package))
            &&& d.get("requested_version"@) == Some(JsonView::Str(version))
            &&& d.get("reason"@) == Some(JsonView::Str(reason))
            &&& d.get("suggested_version"@) == Some(
                match suggested {
                    Some(s) => JsonView::Str(s),
                    None => JsonView::Null,
                },
            )
        }),
{
    reveal_strlit("error");
    reveal_strlit("package");
    reveal_strlit("requested_version");
    reveal_strlit("reason");
    reveal_strlit("suggested_version");
    assert("requested_version"@[0] == 'r' && "suggested_version"@[0] == 's');
    assert("error"@.len() == 5 && "package"@.len() == 7 && "reason"@.len() == 6);
    assert("requested_version"@.len() == 17 && "suggested_version"@.len() == 17);
    let a = JsonView::object();
    let b = a.put("error"@, JsonView::Str("Version too recent for download"@));
    let c = b.put("package"@, JsonView::Str(package));
    let d = c.put("requested_version"@, JsonView::Str(version));
    let e = d.put("reason"@, JsonView::Str(reason));
    json::law_put_get(a, "error"@, JsonView::Str("Version too recent for download"@), "error"@);
    json::law_put_get(b, "package"@, JsonView::Str(package), "error"@);
    json::law_put_get(c, "requested_version"@, JsonView::Str(version), "error"@);
    json::law_put_get(c, "requested_version"@, JsonView::Str(version), "package"@);
    json::law_put_get(d, "reason"@, JsonView::Str(reason), "error"@);
    json::law_put_get(d, "reason"@, JsonView::Str(reason), "package"@);
    json::law_put_get(d, "reason"@, JsonView::Str(reason), "requested_version"@);
    let last = JsonView::optional(suggested);
    json::law_put_get(e, "suggested_version"@, last, "error"@);
    json::law_put_get(e, "suggested_version"@, last, "package"@);
    json::law_put_get(e, "suggested_version"@, last, "requested_version"@);
    json::law_put_get(e, "suggested_version"@, last, "reason"@);
}

/// The reason for withholding a version tells the days of delay: no two numbers of
/// days give the same one, and the digits stand in it.
pub proof fn law_reason_days(a: i64, b: i64)
    ensures
        too_recent(a) == too_recent(b) ==> a == b,
        text::decimal(a as int) == too_recent(a).subrange(
            "Version was published within the last "@.len() as int,
            too_recent(a).len() - " day(s)"@.len(),
        ),
{
    let head = "Version was published within the last "@;
    let tail = " day(s)"@;
    let x = text::decimal(a as int);
    let y = text::decimal(b as int);
    assert(x =~= too_recent(a).subrange(head.len() as int, too_recent(a).len() - tail.len()));
    assert(y =~= too_recent(b).subrange(head.len() as int, too_recent(b).len() - tail.len()));
    text::law_decimal_round_trip(a);
    text::law_decimal_round_trip(b);
}

/// A name without separators is left as it is, and a run of separators, however long
/// and of whichever kinds, becomes a single hyphen between what stands on its sides.
pub proof fn law_collapse_run(before: Seq<char>, run: Seq<char>, behind: Seq<char>)
    requires
        run.len() > 0,
        forall|i: int|
            0 <= i < run.len() ==> #[trigger] run[i] == '-' || run[i] == '_' || run[i] == '.',
        before.len() > 0 ==> before.last() != '-' && before.last() != '_' && before.last() != '.',
        behind.len() > 0 ==> behind[0] != '-' && behind[0] != '_' && behind[0] != '.',
    ensures
        collapse(before + run + behind) == collapse(before) + seq!['-'] + collapse(behind),
    decreases behind.len(), run.len(),
{
    let whole = before + run + behind;
    let n = whole.len() as int;
    if behind.len() == 0 {
        assert(whole =~= before + run);
        assert(whole.last() == run.last());
        assert(run[run.len() - 1] == run.last());
        assert(is_separator(whole.last()));
        if run.len() == 1 {
            assert(whole.drop_last() =~= before);
            if n >= 2 {
                assert(whole[n - 2] == before.last());
            }
        } else {
            let shorter = run.drop_last();
            assert forall|i: int| 0 <= i < shorter.len() implies #[trigger] shorter[i] == '-'
                || shorter[i] == '_' || shorter[i] == '.' by {
                assert(shorter[i] == run[i]);
            }
            assert(whole[n - 2] == run[run.len() - 2]);
            assert(is_separator(whole[n - 2]));
            law_collapse_run(before, shorter, behind);
            assert(whole.drop_last() =~= before + shorter + behind);
        }
        assert(collapse(whole) =~= collapse(before) + seq!['-'] + collapse(behind));
    } else {
        let front = behind.drop_last();
        assert(whole.last() == behind.last());
        assert(whole.drop_last() =~= before + run + front);
        if front.len() > 0 {
            assert(front[0] == behind[0]);
            assert(whole[n - 2] == behind[behind.len() - 2]);
        } else {
            assert(behind.last() == behind[0]);
        }
        law_collapse_run(before, run, front);
        assert(collapse(whole) =~= collapse(before) + seq!['-'] + collapse(behind));
    }
}

/// A name without separators is left as it is.
pub proof fn law_collapse_plain(name: Seq<char>)
    requires
        forall|i: int|
            0 <= i < name.len() ==> #[trigger] name[i] != '-' && name[i] != '_' && name[i] != '.',
    ensures
        collapse(name) == name,
{
    assert forall|i: int| 0 < i < name.len() implies !(#[trigger] name[i] == '-' && name[i - 1]
        == '-') by {}
    lemma_collapse_fixed(name);
}

/// The name of a wheel gives back its package and version: the first two of its
/// pieces, of which there are five or more, whatever the others say, as long as the
/// last one can be a tag.
pub proof fn law_wheel_round_trip(pieces: Seq<Seq<char>>)
    requires
        pieces.len() >= 5,
        forall|i: int| 0 <= i < pieces.len() ==> !(#[trigger] pieces[i]).contains('-'),
        !".whl"@.is_suffix_of(pieces.last()),
        pieces.last().contains('.') || forall|i: int|
            0 <= i < pieces.last().len() ==> text::alphanumeric(#[trigger] pieces.last()[i])
                || pieces.last()[i] == '_',
    ensures
        file_parts(text::join(pieces, seq!['-']) + ".whl"@) == Some((pieces[0], pieces[1])),
{
    reveal_strlit(".whl");
    let stem = text::join(pieces, seq!['-']);
    let name = stem + ".whl"@;
    assert(!".whl"@.contains('-'));
    text::law_join_split(pieces, '-');
    assert(name.subrange(name.len() - 4, name.len() as int) =~= ".whl"@);
    assert(name.take(name.len() - 4) =~= stem);
    text::lemma_split_trim(stem, ".whl"@, '-');
    assert(text::trim_end_text(name, ".whl"@) == stem);
}

/// A file that is neither a wheel nor a source archive has no package and version, nor
/// has a wheel with fewer than five pieces.
pub proof fn law_other_files(filename: Seq<char>)
    ensures
        !".whl"@.is_suffix_of(filename) && !".tar.gz"@.is_suffix_of(filename) ==> file_parts(
            filename,
        ) is None,
        ".whl"@.is_suffix_of(filename) && text::split(filename, '-').len() < 5 ==> file_parts(
            filename,
        ) is None,
{
    reveal_strlit(".whl");
    assert(!".whl"@.contains('-'));
    text::lemma_split_trim(filename, ".whl"@, '-');
    text::lemma_split_nonempty(filename, '-');
    assert(wheel_pieces(filename).len() == text::split(filename, '-').len());
}

proof fn lemma_trim_run(s: Seq<char>, run: Seq<char>, c: char)
    requires
        s.len() > 0 ==> s.last() != c,
        forall|i: int| 0 <= i < run.len() ==> #[trigger] run[i] == c,
    ensures
        text::trim_end(s + run, c) == s,
    decreases run.len(),
{
    let whole = s + run;
    if run.len() == 0 {
        assert(whole =~= s);
    } else {
        assert(run[run.len() - 1] == c);
        assert(whole.last() == c);
        assert(whole.drop_last() =~= s + run.drop_last());
        lemma_trim_run(s, run.drop_last(), c);
    }
}

/// The version of a source archive begins with the first digit of its name, and its
/// package is what stands before that without the underscores and hyphens at its end.
pub proof fn law_sdist_parts(
    package: Seq<char>,
    underscores: Seq<char>,
    hyphens: Seq<char>,
    version: Seq<char>,
)
    requires
        package.len() > 0,
        package.last() != '-',
        package.last() != '_',
        forall|i: int| 0 <= i < package.len() ==> !('0' <= #[trigger] package[i] <= '9'),
        forall|i: int| 0 <= i < underscores.len() ==> #[trigger] underscores[i] == '_',
        forall|i: int| 0 <= i < hyphens.len() ==> #[trigger] hyphens[i] == '-',
        version.len() > 0,
        '0' <= version[0] <= '9',
        !".tar.gz"@.is_suffix_of(package + underscores + hyphens + version),
    ensures
        file_parts(package + underscores + hyphens + version + ".tar.gz"@) == Some(
            (package, version),
        ),
{
    reveal_strlit(".whl");
    reveal_strlit(".tar.gz");
    let head = package + underscores + hyphens;
    let stem = head + version;
    let name = stem + ".tar.gz"@;
    let n = name.len() as int;
    assert(name.subrange(n - 7, n) =~= ".tar.gz"@);
    assert(".tar.gz"@.is_suffix_of(name));
    assert(!".whl"@.is_suffix_of(name)) by {
        assert(name[n - 1] == 'z');
        if ".whl"@.is_suffix_of(name) {
            assert(name.subrange(n - 4, n)[3] == name[n - 1]);
        }
    }
    text::law_trim_ending(stem, ".tar.gz"@);
    let i = head.len() as int;
    assert forall|j: int| 0 <= j < i implies !text::is_digit(#[trigger] stem[j]) by {
        if j < package.len() {
            assert(stem[j] == package[j]);
        } else if j < package.len() + underscores.len() {
            assert(stem[j] == underscores[j - package.len()]);
        } else {
            assert(stem[j] == hyphens[j - package.len() - underscores.len()]);
        }
    }
    assert(stem[i] == version[0]);
    lemma_first_digit(stem, i);
    assert(stem.take(i) =~= head);
    assert(stem.skip(i) =~= version);
    let front = package + underscores;
    if underscores.len() > 0 {
        assert(underscores[underscores.len() - 1] == '_');
        assert(front.last() == '_');
    } else {
        assert(front =~= package);
    }
    lemma_trim_run(front, hyphens, '-');
    lemma_trim_run(package, underscores, '_');
}

/// The file that a path leads to is what stands behind its last slash, up to a
/// fragment.
pub proof fn law_path_filename(directory: Seq<char>, file: Seq<char>, fragment: Seq<char>)
    requires
        !directory.contains('#'),
        !file.contains('#'),
        !file.contains('/'),
    ensures
        path_filename(file) == file,
        path_filename(directory + seq!['/'] + file) == file,
        path_filename(directory + seq!['/'] + file + seq!['#'] + fragment) == file,
{
    let path = directory + seq!['/'] + file;
    assert forall|i: int| 0 <= i < path.len() implies path[i] != '#' by {
        if i < directory.len() {
            assert(directory.contains(directory[i]));
            assert(path[i] == directory[i]);
        } else if i > directory.len() {
            assert(file.contains(file[i - directory.len() - 1]));
            assert(path[i] == file[i - directory.len() - 1]);
        }
    }
    text::law_cut(path, fragment, '#');
    text::law_cut(file, fragment, '#');
    text::law_after_last(directory, file, '/');
}

proof fn lemma_upload_texts(releases: Seq<(Seq<char>, JsonView)>, version: Seq<char>)
    ensures
        names::in_order(upload_texts(releases)),
        names::lookup(upload_texts(releases), version) == (match last_upload(releases, version) {
            Some(t) => Some(JsonView::Str(t)),
            None => None,
        }),
    decreases releases.len(),
{
    if releases.len() > 0 {
        let front = releases.drop_last();
        lemma_upload_texts(front, version);
        let (v, files) = releases.last();
        if let Some(t) = upload_text(files) {
            names::lemma_put_order(upload_texts(front), v, JsonView::Str(t));
            names::lemma_put_lookup(upload_texts(front), v, JsonView::Str(t), version);
        }
    }
}

/// The upload time that the last release of a version with one gives.
spec fn last_upload(releases: Seq<(Seq<char>, JsonView)>, version: Seq<char>) -> Option<Seq<char>>
    decreases releases.len(),
{
    if releases.len() == 0 {
        None
    } else if releases.last().0 == version && upload_text(releases.last().1) is Some {
        upload_text(releases.last().1)
    } else {
        last_upload(releases.drop_last(), version)
    }
}

proof fn lemma_last_upload(releases: Seq<(Seq<char>, JsonView)>, version: Seq<char>)
    requires
        names::in_order(releases),
    ensures
        last_upload(releases, version) == (match names::lookup(releases, version) {
            Some(files) => upload_text(files),
            None => None,
        }),
    decreases releases.len(),
{
    if releases.len() > 0 {
        let front = releases.drop_last();
        names::lemma_front_order(releases);
        lemma_last_upload(front, version);
        if releases.last().0 == version {
            names::lemma_lookup_found(front, version);
            if let Some(v) = names::lookup(front, version) {
                let k = choose|k: int| 0 <= k < front.len() && front[k] == (version, v);
                assert(releases[k].0 == version);
                assert(text::less(releases[k].0, releases[releases.len() - 1].0));
                text::lemma_less_irreflexive(version);
            }
        }
    }
}

/// The time of a release is the upload time of the first of its files; a release
/// without files, or whose first file has no such time, has none.
pub proof fn law_release_times(releases: Seq<(Seq<char>, JsonView)>, version: Seq<char>)
    requires
        names::in_order(releases),
        release_times(JsonView::Object(releases)) is Ok,
    ensures
        release_times(JsonView::Object(releases))->Ok_0.get(version) == (match names::lookup(
            releases,
            version,
        ) {
            Some(JsonView::Array(files)) => if files.len() > 0 {
                match files[0].get("upload_time"@) {
                    Some(JsonView::Str(t)) => Some(JsonView::Str(t)),
                    _ => None,
                }
            } else {
                None
            },
            _ => None,
        }),
{
    lemma_upload_texts(releases, version);
    lemma_last_upload(releases, version);
}

proof fn lemma_file_named(files: Seq<JsonView>, k: int, filename: Seq<char>)
    requires
        0 <= k <= files.len(),
        k < files.len() ==> files[k].get("filename"@) == Some(JsonView::Str(filename)),
        forall|i: int|
            0 <= i < k ==> (#[trigger] files[i]).get("filename"@) != Some(JsonView::Str(filename)),
    ensures
        file_named(files, filename) == (if k < files.len() {
            Some(files[k])
        } else {
            None
        }),
    decreases k,
{
    if k > 0 {
        let rest = files.skip(1);
        assert(files[0].get("filename"@) != Some(JsonView::Str(filename)));
        assert forall|i: int| 0 <= i < k - 1 implies (#[trigger] rest[i]).get("filename"@) != Some(
            JsonView::Str(filename),
        ) by {
            assert(rest[i] == files[i + 1]);
        }
        if k < files.len() {
            assert(rest[k - 1] == files[k]);
        }
        lemma_file_named(rest, k - 1, filename);
    }
}

/// Where a file is found, and its checksum, are those of the first file of the release
/// with its name; where there is none of that name, the first file of the release is
/// taken, with no checksum.
pub proof fn law_release_file(
    releases: JsonView,
    version: Seq<char>,
    files: Seq<JsonView>,
    k: int,
    filename: Seq<char>,
)
    requires
        releases.get(version) == Some(JsonView::Array(files)),
        0 <= k <= files.len(),
        k < files.len() ==> files[k].get("filename"@) == Some(JsonView::Str(filename)),
        forall|i: int|
            0 <= i < k ==> (#[trigger] files[i]).get("filename"@) != Some(JsonView::Str(filename)),
    ensures
        download_url(releases, version, filename) == (if k < files.len() {
            files[k].get_text("url"@)
        } else if files.len() > 0 {
            files[0].get_text("url"@)
        } else {
            None
        }),
        file_sha256(releases, version, filename) == (if k < files.len() {
            files[k].get_text("sha256_digest"@)
        } else {
            None
        }),
{
    lemma_file_named(files, k, filename);
}

/// A release that is not listed has no files.
pub proof fn law_no_release(releases: JsonView, version: Seq<char>, filename: Seq<char>)
    requires
        !(releases.get(version) matches Some(JsonView::Array(_))),
    ensures
        download_url(releases, version, filename) is None,
        file_sha256(releases, version, filename) is None,
{
}

/// The name of the wheel to serve in place of another differs from it in the version
/// alone.
pub proof fn law_replaced_wheel_name(
    package: Seq<char>,
    version: Seq<char>,
    tags: Seq<char>,
    suggested: Seq<char>,
)
    requires
        !package.contains('-'),
        ".whl"@.is_suffix_of(tags),
        forall|i: int|
            0 <= i < tags.len() ==> !#[trigger] text::occurs(
                tags,
                seq!['-'] + version + seq!['-'],
                i,
            ),
    ensures
        redirected_filename(
            package + seq!['-'] + version + seq!['-'] + tags,
            package,
            version,
            suggested,
        ) == package + seq!['-'] + suggested + seq!['-'] + tags,
{
    reveal_strlit("-");
    reveal_strlit(".whl");
    assert("-"@ =~= seq!['-']);
    let from = "-"@ + version + "-"@;
    let to = "-"@ + suggested + "-"@;
    let filename = package + seq!['-'] + version + seq!['-'] + tags;
    assert(filename =~= package + from + tags);
    let n = filename.len() as int;
    assert(filename.subrange(n - 4, n) =~= tags.subrange(tags.len() - 4, tags.len() as int));
    assert(".whl"@.is_suffix_of(filename));
    lemma_replace_second(package, tags, version, suggested);
    text::law_replace_absent(tags, from, to);
    assert(package + to + tags =~= package + seq!['-'] + suggested + seq!['-'] + tags);
}

/// The name of the archive to serve in place of another is made of the package and the
/// version that is served.
pub proof fn law_replaced_sdist_name(
    filename: Seq<char>,
    package: Seq<char>,
    version: Seq<char>,
    suggested: Seq<char>,
)
    requires
        !".whl"@.is_suffix_of(filename),
    ensures
        redirected_filename(filename, package, version, suggested) == package + "-"@ + suggested
            + ".tar.gz"@,
{
}

/// Whether an answer sends the client to an address, as a temporary redirection.
pub open spec fn leads_to(reply: ReplyView, url: Seq<char>) -> bool {
    (reply.status == 307 || reply.status == 302) && reply.headers.contains(("location"@, url))
}

/// A file whose version is too young is replaced by the file of the version that stands
/// in: where there is a mirror, by the file of that name there if it has it, and else
/// by that of the release of that version. The answer names both versions.
pub proof fn law_replaced_plan(
    config: Config,
    days: i64,
    cutoff: Timestamp,
    path: Seq<char>,
    package: Seq<char>,
    version: Seq<char>,
    releases: JsonView,
    times: Seq<(Seq<char>, Timestamp)>,
    best: Seq<char>,
    has_it: bool,
)
    requires
        names::in_order(times),
        delay_check::resolution(times, cutoff, version) matches Ok(
            CheckView::Downgraded { suggested_version, .. },
        ) && suggested_version == best,
    ensures
        ({
            let plan = listed_plan(config, days, cutoff, path, package, version, releases, times);
            let name = redirected_filename(path_filename(path), package, version, best);
            let listed = match download_url(releases, best, name) {
                Some(url) => url,
                None => config.pypi_download_base@ + "/"@ + name,
            };
            let reply = match plan {
                PlanView::Answer(reply) => reply,
                PlanView::TryMirror { found, otherwise, .. } => if has_it {
                    found
                } else {
                    otherwise
                },
            };
            &&& plan is TryMirror <==> config.pypi_download_mirror@.len() > 0
            &&& plan matches PlanView::TryMirror { mirror_url, .. } ==> mirror_url
                == text::trim_end(config.pypi_download_mirror@, '/') + "/"@ + name
            &&& leads_to(
                reply,
                if has_it && config.pypi_download_mirror@.len() > 0 {
                    text::trim_end(config.pypi_download_mirror@, '/') + "/"@ + name
                } else {
                    listed
                },
            )
            &&& reply.headers.contains(("X-Delay-Original-Version"@, version))
            &&& reply.headers.contains(("X-Delay-Redirected-Version"@, best))
        }),
{
    let name = redirected_filename(path_filename(path), package, version, best);
    let mirrored = text::trim_end(config.pypi_download_mirror@, '/') + "/"@ + name;
    let listed = or_else(
        download_url(releases, best, name),
        config.pypi_download_base@ + "/"@ + name,
    );
    let a = downgraded_reply(mirrored, version, best);
    let b = downgraded_reply(listed, version, best);
    assert(a.headers[0] == ("location"@, mirrored));
    assert(a.headers[1] == ("X-Delay-Original-Version"@, version));
    assert(a.headers[2] == ("X-Delay-Redirected-Version"@, best));
    assert(b.headers[0] == ("location"@, listed));
    assert(b.headers[1] == ("X-Delay-Original-Version"@, version));
    assert(b.headers[2] == ("X-Delay-Redirected-Version"@, best));
}

/// A file whose version is old enough is served as it was asked for: where there is a
/// mirror, from the path that was asked for there if it has it, and else from where the
/// release lists it.
pub proof fn law_served_plan(
    config: Config,
    days: i64,
    cutoff: Timestamp,
    path: Seq<char>,
    package: Seq<char>,
    version: Seq<char>,
    releases: JsonView,
    times: Seq<(Seq<char>, Timestamp)>,
    has_it: bool,
)
    requires
        names::lookup(times, version) matches Some(t) && t.le(cutoff),
    ensures
        ({
            let plan = listed_plan(config, days, cutoff, path, package, version, releases, times);
            let listed = match download_url(releases, version, path_filename(path)) {
                Some(url) => url,
                None => config.pypi_download_base@ + "/"@ + path,
            };
            let reply = match plan {
                PlanView::Answer(reply) => reply,
                PlanView::TryMirror { found, otherwise, .. } => if has_it {
                    found
                } else {
                    otherwise
                },
            };
            &&& plan is TryMirror <==> config.pypi_download_mirror@.len() > 0
            &&& plan matches PlanView::TryMirror { mirror_url, .. } ==> mirror_url
                == text::trim_end(config.pypi_download_mirror@, '/') + "/"@ + path
            &&& leads_to(
                reply,
                if has_it && config.pypi_download_mirror@.len() > 0 {
                    text::trim_end(config.pypi_download_mirror@, '/') + "/"@ + path
                } else {
                    listed
                },
            )
            &&& reply.headers.len() == 1
        }),
{
    let mirrored = text::trim_end(config.pypi_download_mirror@, '/') + "/"@ + path;
    let listed = or_else(
        download_url(releases, version, path_filename(path)),
        config.pypi_download_base@ + "/"@ + path,
    );
    assert(found_reply(mirrored).headers[0] == ("location"@, mirrored));
    assert(ReplyView::redirect(listed).headers[0] == ("location"@, listed));
}

/// A file whose version is too young, with nothing to stand in, is refused, and a
/// version that is not listed is not found.
pub proof fn law_refused_plan(
    config: Config,
    days: i64,
    cutoff: Timestamp,
    path: Seq<char>,
    package: Seq<char>,
    version: Seq<char>,
    releases: JsonView,
    times: Seq<(Seq<char>, Timestamp)>,
)
    requires
        names::in_order(times),
    ensures
        ({
            let plan = listed_plan(config, days, cutoff, path, package, version, releases, times);
            &&& names::lookup(times, version) is None ==> (plan matches PlanView::Answer(reply)
                && reply.status == 404)
            &&& names::lookup(times, version) is Some && (forall|other: Seq<char>|
                #[trigger] names::lookup(times, other) matches Some(t) ==> !t.le(cutoff)) ==> {
                &&& plan matches PlanView::Answer(reply)
                &&& reply.status == 403
                &&& reply.body == BodyView::Json(denial(package, version, too_recent(days), None))
                &&& reply.headers.contains(("X-Delay-Original-Version"@, version))
            }
        }),
{
    if names::lookup(times, version) is Some && (forall|other: Seq<char>|
        #[trigger] names::lookup(times, other) matches Some(t) ==> !t.le(cutoff)) {
        delay_check::law_denied(times, cutoff, version);
        delay_check::law_resolution_substitute(times, cutoff, version);
        let plan = listed_plan(config, days, cutoff, path, package, version, releases, times);
        assert(plan->Answer_0.headers[1] == ("X-Delay-Original-Version"@, version));
    }
}

/// A file is planned by its version as long as the release of that version is listed
/// with a time that can be read.
pub proof fn law_planned_by_version(
    config: Config,
    days: i64,
    cutoff: Timestamp,
    path: Seq<char>,
    package: Seq<char>,
    version: Seq<char>,
    metadata: JsonView,
    releases: JsonView,
    files: Seq<JsonView>,
    uploaded: Seq<char>,
)
    requires
        metadata.get("releases"@) == Some(releases),
        releases.get(version) == Some(JsonView::Array(files)),
        files.len() > 0,
        files[0].get("upload_time"@) == Some(JsonView::Str(uploaded)),
        delay_check::flexible_time(uploaded) is Some,
        release_times(releases) is Ok,
        delay_check::field_times(release_times(releases)->Ok_0) is Ok,
    ensures
        download_plan(config, days, cutoff, path, package, version, metadata) == listed_plan(
            config,
            days,
            cutoff,
            path,
            package,
            version,
            releases,
            delay_check::field_times(release_times(releases)->Ok_0)->Ok_0,
        ),
        checked_times(metadata, version) == Some(
            delay_check::field_times(release_times(releases)->Ok_0)->Ok_0,
        ),
{
}

/// A file of a release that is not listed is taken from where it was asked for.
pub proof fn law_planned_unlisted(
    config: Config,
    days: i64,
    cutoff: Timestamp,
    path: Seq<char>,
    package: Seq<char>,
    version: Seq<char>,
    metadata: JsonView,
    releases: JsonView,
)
    requires
        metadata.get("releases"@) == Some(releases),
        releases.get(version) is None,
    ensures
        ({
            let plan = download_plan(config, days, cutoff, path, package, version, metadata);
            &&& config.pypi_download_mirror@.len() == 0 ==> (plan matches PlanView::Answer(reply)
                && leads_to(reply, config.pypi_download_base@ + "/"@ + path))
            &&& config.pypi_download_mirror@.len() > 0 ==> {
                &&& plan matches PlanView::TryMirror { mirror_url, found, otherwise }
                &&& mirror_url == text::trim_end(config.pypi_download_mirror@, '/') + "/"@ + path
                &&& leads_to(found, mirror_url)
                &&& leads_to(otherwise, config.pypi_download_base@ + "/"@ + path)
            }
            &&& checked_times(metadata, version) is None
        }),
{
    let plain = config.pypi_download_base@ + "/"@ + path;
    let mirrored = text::trim_end(config.pypi_download_mirror@, '/') + "/"@ + path;
    assert(ReplyView::redirect(plain).headers[0] == ("location"@, plain));
    let found = found_reply(mirrored).header(
        "X-Delay-Warning"@,
        "Version not in JSON API, using mirror directly"@,
    );
    assert(found.headers[0] == ("location"@, mirrored));
}

/// The metadata of a package is what the server sent with success, and nothing else;
/// a package that is missing there is missing here.
pub proof fn law_release_info(
    package: Seq<char>,
    status: u16,
    body: Result<JsonView, Seq<char>>,
    error: Seq<char>,
)
    ensures
        ({
            let r = release_info_of(package, FetchedView::Answered { status, body });
            &&& r is Ok <==> 200 <= status < 300 && body is Ok
            &&& r is Ok ==> r->Ok_0 == body->Ok_0
            &&& status == 404 ==> r->Err_0.0 == 404
            &&& r is Err && status != 404 ==> r->Err_0.0 == 502 || r->Err_0.0 == 500
        }),
        release_info_of(package, FetchedView::Failed(error)) is Err,
        release_info_of(package, FetchedView::Failed(error))->Err_0.0 == 502,
{
}

/// What is found in the mirror is answered as found, what is taken from upstream or
/// stands in for another as a temporary redirect; none of them has a body.
pub proof fn law_redirect_status(url: Seq<char>, version: Seq<char>, suggested: Seq<char>)
    ensures
        found_reply(url).status == 302,
        found_reply(url).body is Empty,
        found_reply(url).headers == seq![("location"@, url)],
        downgraded_reply(url, version, suggested).status == 307,
        downgraded_reply(url, version, suggested).body is Empty,
        downgraded_reply(url, version, suggested).headers.len() == 4,
{
    assert(found_reply(url).headers =~= seq![("location"@, url)]);
}

/// Which of the two answers is given for an old file, by its status.
pub proof fn law_served_status(
    config: Config,
    days: i64,
    cutoff: Timestamp,
    path: Seq<char>,
    package: Seq<char>,
    version: Seq<char>,
    releases: JsonView,
    times: Seq<(Seq<char>, Timestamp)>,
)
    requires
        names::lookup(times, version) matches Some(t) && t.le(cutoff),
    ensures
        match listed_plan(config, days, cutoff, path, package, version, releases, times) {
            PlanView::Answer(reply) => reply.status == 307 && reply.body is Empty,
            PlanView::TryMirror { found, otherwise, .. } => found.status == 302 && otherwise.status
                == 307,
        },
{
}

/// A file is not planned without its releases, or where the release of its version has
/// no time that can be read: that is an error of the server, and nothing is written down.
pub proof fn law_plan_errors(
    config: Config,
    days: i64,
    cutoff: Timestamp,
    path: Seq<char>,
    package: Seq<char>,
    version: Seq<char>,
    metadata: JsonView,
    client_ip: Option<Seq<char>>,
)
    requires
        match metadata.get("releases"@) {
            None => true,
            Some(releases) => match releases.get(version) {
                None => false,
                Some(JsonView::Array(files)) => files.len() == 0 || match files[0].get(
                    "upload_time"@,
                ) {
                    Some(JsonView::Str(t)) => delay_check::flexible_time(t) is None,
                    _ => true,
                },
                Some(_) => true,
            },
        },
    ensures
        download_plan(config, days, cutoff, path, package, version, metadata) matches
            PlanView::Answer(reply) && reply.status == 500,
        download_lines(days, cutoff, package, version, metadata, client_ip).len() == 0,
{
}

/// What is written down of a file: that it was allowed, or which version was served
/// instead, or that it was blocked and why.
pub proof fn law_file_line(
    days: i64,
    cutoff: Timestamp,
    package: Seq<char>,
    version: Seq<char>,
    times: Seq<(Seq<char>, Timestamp)>,
    client_ip: Option<Seq<char>>,
    t: Timestamp,
)
    requires
        names::lookup(times, version) == Some(t),
    ensures
        ({
            let lines = file_lines(days, cutoff, package, version, times, client_ip);
            let best = delay_check::newest(delay_check::eligible(times, cutoff));
            &&& lines.len() == 1
            &&& lines[0].package_type == PackageType::PyPI
            &&& lines[0].package_name == package
            &&& lines[0].original_version == version
            &&& lines[0].client_ip == client_ip
            &&& lines[0].actual_version == (if t.le(cutoff) {
                None
            } else {
                best
            })
            &&& !t.le(cutoff) && best is None ==> lines[0].reason == too_recent(days)
        }),
{
}

/// What is written down of a download is what is written down of its file, by the times
/// that it is judged by.
pub proof fn law_download_logged(
    days: i64,
    cutoff: Timestamp,
    package: Seq<char>,
    version: Seq<char>,
    metadata: JsonView,
    client_ip: Option<Seq<char>>,
)
    ensures
        checked_times(metadata, version) is None ==> download_lines(
            days,
            cutoff,
            package,
            version,
            metadata,
            client_ip,
        ).len() == 0,
        checked_times(metadata, version) matches Some(times) ==> download_lines(
            days,
            cutoff,
            package,
            version,
            metadata,
            client_ip,
        ) == file_lines(days, cutoff, package, version, times, client_ip),
{
}

/// The metadata of a package is found below the base address, under its name.
pub proof fn law_json_url(base: Seq<char>, name: Seq<char>)
    ensures
        json_url(base, name) == base + "/"@ + name + "/json"@,
        json_url(base, name).len() == base.len() + name.len() + 6,
{
    reveal_strlit("/");
    reveal_strlit("/json");
}

/// An upload time that cannot be read is an error that names it.
pub proof fn law_upload_time(s: Seq<char>, t: Timestamp)
    ensures
        upload_time(s, Some(t)) == Ok::<Timestamp, ErrorView>(t),
        upload_time(s, None) == Err::<Timestamp, ErrorView>(
            ErrorView::InvalidTimeFormat(
                "invalid upload_time format: "@ + ("Invalid time field format: "@ + (
                "unable to parse datetime: "@ + s)),
            ),
        ),
{
}

/// The last piece of the name of a wheel is a tag if it has a full stop in it or is made
/// of letters, figures and underscores; else the name is not read as a wheel's.
pub proof fn law_tag(tag: Seq<char>, i: int)
    ensures
        tag.contains('.') ==> is_tag(tag),
        (forall|j: int|
            0 <= j < tag.len() ==> text::alphanumeric(#[trigger] tag[j]) || tag[j] == '_')
            ==> is_tag(tag),
        0 <= i < tag.len() && !tag.contains('.') && !text::alphanumeric(tag[i]) && tag[i] != '_'
            ==> !is_tag(tag),
{
    if 0 <= i < tag.len() && !tag.contains('.') && !text::alphanumeric(tag[i]) && tag[i] != '_' {
        assert(tag.contains(tag[i]));
    }
}

/// The version of a suggestion is the one that stands in, the version itself where it is
/// old enough, and none where it is not listed.
pub proof fn law_suggestion(
    times: Seq<(Seq<char>, Timestamp)>,
    cutoff: Timestamp,
    version: Seq<char>,
)
    ensures
        suggestion(times, cutoff, version) == (match names::lookup(times, version) {
            None => None,
            Some(t) => if t.le(cutoff) {
                Some(version)
            } else {
                delay_check::newest(delay_check::eligible(times, cutoff))
            },
        }),
{
}

/// Releases of which none has an upload time have no times, and a value that is no object
/// is no list of releases.
pub proof fn law_release_time_errors(releases: JsonView)
    ensures
        !(releases is Object) ==> release_times(releases) == Err::<JsonView, ErrorView>(
            ErrorView::InvalidTimeFormat("releases field is not a JSON object"@),
        ),
        releases matches JsonView::Object(members) ==> (upload_texts(members).len() == 0
            ==> release_times(releases) == Err::<JsonView, ErrorView>(
            ErrorView::MissingTimeField,
        )),
        release_times(JsonView::object()) is Err,
{
}

/// The reason that is written down of a file that was replaced is that it is too young.
pub proof fn law_replaced_line(
    days: i64,
    cutoff: Timestamp,
    package: Seq<char>,
    version: Seq<char>,
    times: Seq<(Seq<char>, Timestamp)>,
    client_ip: Option<Seq<char>>,
    t: Timestamp,
    best: Seq<char>,
)
    requires
        names::lookup(times, version) == Some(t),
        !t.le(cutoff),
        delay_check::newest(delay_check::eligible(times, cutoff)) == Some(best),
    ensures
        file_lines(days, cutoff, package, version, times, client_ip) == seq![
            LogView {
                event: "version_check"@,
                package_type: PackageType::PyPI,
                package_name: package,
                original_version: version,
                actual_version: Some(best),
                action: delay_logger::DelayAction::Downgraded,
                reason: "Version too recent, auto-downloaded for security"@,
                client_ip,
            },
        ],
{
}

/// A file of a release that is not listed is found in the mirror with a warning.
pub proof fn law_unlisted_warned(
    config: Config,
    days: i64,
    cutoff: Timestamp,
    path: Seq<char>,
    package: Seq<char>,
    version: Seq<char>,
    metadata: JsonView,
    releases: JsonView,
)
    requires
        metadata.get("releases"@) == Some(releases),
        releases.get(version) is None,
    ensures
        match download_plan(config, days, cutoff, path, package, version, metadata) {
            PlanView::Answer(reply) => reply.status == 307 && reply.headers.len() == 1,
            PlanView::TryMirror { found, otherwise, .. } => found.status == 302
                && found.headers.len() == 2 && found.headers[1] == (
                "X-Delay-Warning"@,
                "Version not in JSON API, using mirror directly"@,
            ) && otherwise.status == 307 && otherwise.headers.len() == 1,
        },
{
}

/// What is said of a version that is not listed names it and the package, and a refusal
/// gives its reason in a header.
pub proof fn law_plan_messages(
    config: Config,
    days: i64,
    cutoff: Timestamp,
    path: Seq<char>,
    package: Seq<char>,
    version: Seq<char>,
    releases: JsonView,
    times: Seq<(Seq<char>, Timestamp)>,
)
    ensures
        ({
            let plan = listed_plan(config, days, cutoff, path, package, version, releases, times);
            &&& names::lookup(times, version) is None ==> plan == PlanView::Answer(
                ReplyView::error(
                    404,
                    "Version not found in package releases: package="@ + package + ", version="@
                        + version,
                ),
            )
            &&& plan matches PlanView::Answer(reply) ==> (reply.status == 403 ==> reply.headers
                == seq![
                ("content-type"@, "application/json"@),
                ("X-Delay-Original-Version"@, version),
                ("X-Delay-Reason"@, "Version published too recently, below delay threshold"@),
            ])
        }),
{
    let plan = listed_plan(config, days, cutoff, path, package, version, releases, times);
    if plan is Answer && plan->Answer_0.status == 403 {
        assert(plan->Answer_0.headers =~= seq![
            ("content-type"@, "application/json"@),
            ("X-Delay-Original-Version"@, version),
            ("X-Delay-Reason"@, "Version published too recently, below delay threshold"@),
        ]);
    }
}

/// What stands in for another is marked with both versions and the reason, in this order.
pub proof fn law_replaced_headers(url: Seq<char>, version: Seq<char>, suggested: Seq<char>)
    ensures
        downgraded_reply(url, version, suggested).headers == seq![
            ("location"@, url),
            ("X-Delay-Original-Version"@, version),
            ("X-Delay-Redirected-Version"@, suggested),
            ("X-Delay-Reason"@, "Version too recent, auto-downloaded for security"@),
        ],
{
    assert(downgraded_reply(url, version, suggested).headers =~= seq![
        ("location"@, url),
        ("X-Delay-Original-Version"@, version),
        ("X-Delay-Redirected-Version"@, suggested),
        ("X-Delay-Reason"@, "Version too recent, auto-downloaded for security"@),
    ]);
}

/// What is said where metadata could not be had names the error, the package or the
/// status.
pub proof fn law_info_messages(package: Seq<char>, status: u16, error: Seq<char>, value: JsonView)
    ensures
        release_info_of(package, FetchedView::Failed(error))->Err_0.1
            == "Failed to connect to PyPI JSON API: "@ + error,
        status == 404 ==> release_info_of(
            package,
            FetchedView::Answered { status, body: Ok(value) },
        )->Err_0.1 == "Package not found on PyPI: "@ + package,
        status != 404 && !(200 <= status < 300) ==> release_info_of(
            package,
            FetchedView::Answered { status, body: Ok(value) },
        ) == Err::<JsonView, (u16, Seq<char>)>(
            (502u16, "PyPI JSON API error, status: "@ + text::decimal(status as int)),
        ),
        200 <= status < 300 ==> release_info_of(
            package,
            FetchedView::Answered { status, body: Err(error) },
        ) == Err::<JsonView, (u16, Seq<char>)>(
            (500u16, "Failed to parse PyPI JSON API response: "@ + error),
        ),
{
}

} // verus!
