//! Which endpoint a request is for, and the answers that need nothing from
//! upstream.

use vstd::prelude::*;
use vstd::string::StringExecFns;
use vstd::utf8::{encode_utf8, is_char_boundary};

use crate::config::Config;
use crate::gomod::GomodEndpoint;
use crate::json::{self, Json, JsonView};
use crate::reply::{Reply, ReplyView};
use crate::text;

verus! {

/// Where a request leads.
#[derive(Debug, PartialEq)]
pub enum Route {
    MethodNotAllowed,
    Index,
    Health,
    DebugFetch,
    DebugRoutes,
    DebugPypi,
    DebugGomod,
    NpmMetadata,
    NpmVersion,
    NpmDownload,
    Gomod(GomodEndpoint),
    PypiIndex,
    PypiPackage { package: String },
    PypiDownload { filename: String },
    Usage { endpoint: String },
    NotFound { path: String },
}

/// What a route says.
#[verifier::ext_equal]
pub enum RouteView {
    MethodNotAllowed,
    Index,
    Health,
    DebugFetch,
    DebugRoutes,
    DebugPypi,
    DebugGomod,
    NpmMetadata,
    NpmVersion,
    NpmDownload,
    Gomod(GomodEndpoint),
    PypiIndex,
    PypiPackage { package: Seq<char> },
    PypiDownload { filename: Seq<char> },
    Usage { endpoint: Seq<char> },
    NotFound { path: Seq<char> },
}

impl View for Route {
    type V = RouteView;

    open spec fn view(&self) -> RouteView {
        match self {
            Route::MethodNotAllowed => RouteView::MethodNotAllowed,
            Route::Index => RouteView::Index,
            Route::Health => RouteView::Health,
            Route::DebugFetch => RouteView::DebugFetch,
            Route::DebugRoutes => RouteView::DebugRoutes,
            Route::DebugPypi => RouteView::DebugPypi,
            Route::DebugGomod => RouteView::DebugGomod,
            Route::NpmMetadata => RouteView::NpmMetadata,
            Route::NpmVersion => RouteView::NpmVersion,
            Route::NpmDownload => RouteView::NpmDownload,
            Route::Gomod(endpoint) => RouteView::Gomod(*endpoint),
            Route::PypiIndex => RouteView::PypiIndex,
            Route::PypiPackage { package } => RouteView::PypiPackage { package: package@ },
            Route::PypiDownload { filename } => RouteView::PypiDownload { filename: filename@ },
            Route::Usage { endpoint } => RouteView::Usage { endpoint: endpoint@ },
            Route::NotFound { path } => RouteView::NotFound { path: path@ },
        }
    }
}

/// Where a path of an NPM endpoint leads.
pub open spec fn npm_route(parts: Seq<Seq<char>>) -> Option<RouteView> {
    if parts[0] == "npm"@ && parts.len() == 2 {
        Some(RouteView::NpmMetadata)
    } else if parts[0] == "npm"@ && parts.len() == 3 {
        Some(RouteView::NpmVersion)
    } else if parts[0] == "dl"@ && parts.len() >= 2 {
        Some(RouteView::NpmDownload)
    } else {
        None
    }
}

/// Where a path of a Go module endpoint leads.
pub open spec fn gomod_route(parts: Seq<Seq<char>>) -> Option<RouteView> {
    let last = parts.last();
    if last == "list"@ {
        Some(RouteView::Gomod(GomodEndpoint::List))
    } else if ".info"@.is_suffix_of(last) {
        Some(RouteView::Gomod(GomodEndpoint::Info))
    } else if ".mod"@.is_suffix_of(last) {
        Some(RouteView::Gomod(GomodEndpoint::Mod))
    } else if ".zip"@.is_suffix_of(last) {
        Some(RouteView::Gomod(GomodEndpoint::Zip))
    } else {
        None
    }
}

/// Where a path of a PyPI endpoint leads.
pub open spec fn pypi_route(parts: Seq<Seq<char>>) -> Option<RouteView> {
    if parts.len() == 1 || (parts.len() == 2 && parts[1] == "simple"@) {
        Some(RouteView::PypiIndex)
    } else if parts.len() >= 3 && parts[1] == "simple"@ {
        Some(RouteView::PypiPackage { package: parts[2] })
    } else if parts.len() >= 3 && parts[1] == "packages"@ {
        Some(RouteView::PypiDownload { filename: parts.last() })
    } else {
        None
    }
}

/// Where a path leads by its first piece.
pub open spec fn dispatch(parts: Seq<Seq<char>>) -> Option<RouteView> {
    if parts[0] == "npm"@ || parts[0] == "dl"@ {
        npm_route(parts)
    } else if parts[0] == "gomod"@ {
        gomod_route(parts)
    } else if parts[0] == "pypi"@ {
        pypi_route(parts)
    } else {
        None
    }
}

/// Whether a word names a group of endpoints.
pub open spec fn is_group(word: Seq<char>) -> bool {
    word == "npm"@ || word == "dl"@ || word == "gomod"@ || word == "pypi"@
}

/// Where a path leads that is neither the index nor about the mirror itself.
pub open spec fn package_route(path: Seq<char>) -> RouteView {
    let parts = text::split(path, '/');
    match dispatch(parts) {
        Some(route) => route,
        None => if is_group(parts[0]) && parts.len() == 1 {
            RouteView::Usage { endpoint: parts[0] }
        } else {
            RouteView::NotFound { path }
        },
    }
}

/// Where a request leads.
pub open spec fn route_of(method: Seq<char>, full_path: Seq<char>, debug_mode: bool) -> RouteView {
    let path = text::trim_end(text::trim_start(full_path, '/'), '/');
    if method != "GET"@ && method != "HEAD"@ {
        RouteView::MethodNotAllowed
    } else if path.len() == 0 {
        RouteView::Index
    } else if path == "health"@ {
        RouteView::Health
    } else if debug_mode && path == "debug/fetch"@ {
        RouteView::DebugFetch
    } else if debug_mode && path == "debug/routes"@ {
        RouteView::DebugRoutes
    } else if debug_mode && path == "debug/pypi"@ {
        RouteView::DebugPypi
    } else if debug_mode && path == "debug/gomod"@ {
        RouteView::DebugGomod
    } else {
        package_route(path)
    }
}

/// What an optional route says.
pub open spec fn maybe(route: Option<Route>) -> Option<RouteView> {
    match route {
        Some(r) => Some(r@),
        None => None,
    }
}

fn dispatch_npm(parts: &Vec<String>) -> (r: Option<Route>)
    requires
        parts@.len() >= 1,
    ensures
        maybe(r) == npm_route(text::views(parts@)),
{
    let first = parts[0].as_str();
    if text::same(first, "npm") && parts.len() == 2 {
        Some(Route::NpmMetadata)
    } else if text::same(first, "npm") && parts.len() == 3 {
        Some(Route::NpmVersion)
    } else if text::same(first, "dl") && parts.len() >= 2 {
        Some(Route::NpmDownload)
    } else {
        None
    }
}

fn dispatch_gomod(parts: &Vec<String>) -> (r: Option<Route>)
    requires
        parts@.len() >= 1,
    ensures
        maybe(r) == gomod_route(text::views(parts@)),
{
    let last = parts[parts.len() - 1].as_str();
    if text::same(last, "list") {
        Some(Route::Gomod(GomodEndpoint::List))
    } else if text::ends_with(last, ".info") {
        Some(Route::Gomod(GomodEndpoint::Info))
    } else if text::ends_with(last, ".mod") {
        Some(Route::Gomod(GomodEndpoint::Mod))
    } else if text::ends_with(last, ".zip") {
        Some(Route::Gomod(GomodEndpoint::Zip))
    } else {
        None
    }
}

fn dispatch_pypi(parts: &Vec<String>) -> (r: Option<Route>)
    requires
        parts@.len() >= 1,
    ensures
        maybe(r) == pypi_route(text::views(parts@)),
{
    if parts.len() == 1 || (parts.len() == 2 && text::same(parts[1].as_str(), "simple")) {
        Some(Route::PypiIndex)
    } else if parts.len() >= 3 && text::same(parts[1].as_str(), "simple") {
        Some(Route::PypiPackage { package: parts[2].clone() })
    } else if parts.len() >= 3 && text::same(parts[1].as_str(), "packages") {
        Some(Route::PypiDownload { filename: parts[parts.len() - 1].clone() })
    } else {
        None
    }
}

/// Finds where a request leads.
pub fn route_request(method: &str, full_path: &str, debug_mode: bool) -> (r: Route)
    ensures
        r@ == route_of(method@, full_path@, debug_mode),
{
    if !text::same(method, "GET") && !text::same(method, "HEAD") {
        return Route::MethodNotAllowed;
    }
    let path = text::trim_end_char(text::trim_start_char(full_path, '/'), '/');
    if path.is_empty() {
        return Route::Index;
    }
    if text::same(path, "health") {
        return Route::Health;
    }
    if debug_mode && text::same(path, "debug/fetch") {
        return Route::DebugFetch;
    }
    if debug_mode && text::same(path, "debug/routes") {
        return Route::DebugRoutes;
    }
    if debug_mode && text::same(path, "debug/pypi") {
        return Route::DebugPypi;
    }
    if debug_mode && text::same(path, "debug/gomod") {
        return Route::DebugGomod;
    }
    let parts = text::split_text(path, '/');
    proof {
        text::lemma_split_nonempty(path@, '/');
        assert(text::views(parts@).len() == parts@.len());
    }
    let first = parts[0].as_str();
    let is_npm = text::same(first, "npm") || text::same(first, "dl");
    let is_gomod = text::same(first, "gomod");
    let is_pypi = text::same(first, "pypi");
    let found = if is_npm {
        dispatch_npm(&parts)
    } else if is_gomod {
        dispatch_gomod(&parts)
    } else if is_pypi {
        dispatch_pypi(&parts)
    } else {
        None
    };
    match found {
        Some(route) => route,
        None => if (is_npm || is_gomod || is_pypi) && parts.len() == 1 {
            Route::Usage { endpoint: parts[0].clone() }
        } else {
            Route::NotFound { path: path.to_owned() }
        },
    }
}

/// No request but GET and HEAD is answered with anything but a refusal, and no
/// debug endpoint is reached unless debugging is on.
pub proof fn law_guarded_routes(method: Seq<char>, full_path: Seq<char>, debug_mode: bool)
    ensures
        route_of(method, full_path, debug_mode) is MethodNotAllowed <==> (method != "GET"@
            && method != "HEAD"@),
        !debug_mode ==> {
            let r = route_of(method, full_path, debug_mode);
            !(r is DebugFetch) && !(r is DebugRoutes) && !(r is DebugPypi) && !(r is DebugGomod)
        },
{
}

/// The answer with the header that lets any origin read it.
pub fn with_cors(reply: Reply) -> (r: Reply)
    ensures
        r@ == reply@.header("Access-Control-Allow-Origin"@, "*"@),
{
    reply.header("Access-Control-Allow-Origin", "*")
}

/// A JSON answer that any origin may read.
pub open spec fn open_json(status: u16, body: JsonView) -> ReplyView {
    ReplyView::json(status, body).header("Content-Type"@, "application/json"@).header(
        "Access-Control-Allow-Origin"@,
        "*"@,
    )
}

/// A JSON answer that any origin may read.
pub fn make_json_response(status: u16, body: Json) -> (r: Reply)
    ensures
        r@ == open_json(status, body@),
{
    with_cors(Reply::json(status, body).header("Content-Type", "application/json"))
}

/// The answer for a method that is not served.
pub fn method_not_allowed() -> (r: Reply)
    ensures
        r@ == open_json(
            405,
            JsonView::object().put("error"@, JsonView::Str("Method Not Allowed"@)).put(
                "allowed_methods"@,
                JsonView::Array(seq![JsonView::Str("GET"@), JsonView::Str("HEAD"@)]),
            ),
        ),
{
    let mut methods: Vec<Json> = Vec::new();
    methods.push(Json::string("GET"));
    methods.push(Json::string("HEAD"));
    proof {
        json::lemma_array_view(methods);
        assert(json::items_view(methods@) =~= seq![
            JsonView::Str("GET"@),
            JsonView::Str("HEAD"@),
        ]);
    }
    make_json_response(
        405,
        Json::object().put("error", Json::string("Method Not Allowed")).put(
            "allowed_methods",
            Json::Array(methods),
        ),
    )
}

/// The build that is running.
#[derive(Debug)]
pub struct BuildInfo {
    pub version: String,
    pub git_sha: String,
    pub git_dirty: bool,
    pub git_branch: String,
    pub build_time: String,
}

impl BuildInfo {
    /// The version with the commit that it was built from.
    pub open spec fn full(self) -> Seq<char> {
        if self.git_dirty {
            self.version@ + "-dev."@ + self.git_sha@ + "+"@ + self.git_branch@
        } else {
            self.version@ + "-"@ + self.git_sha@ + "+"@ + self.git_branch@
        }
    }

    /// What is said of the build.
    pub open spec fn shown(self) -> JsonView {
        JsonView::object().put("semver"@, JsonView::Str(self.version@)).put(
            "full"@,
            JsonView::Str(self.full()),
        ).put(
            "git"@,
            JsonView::object().put("sha"@, JsonView::Str(self.git_sha@)).put(
                "branch"@,
                JsonView::Str(self.git_branch@),
            ).put("dirty"@, JsonView::Bool(self.git_dirty)),
        ).put("build_time"@, JsonView::Str(self.build_time@))
    }

    /// The version with the commit that it was built from.
    pub fn full_version(&self) -> (r: String)
        ensures
            r@ == self.full(),
    {
        let mark = if self.git_dirty {
            "-dev."
        } else {
            "-"
        };
        self.version.clone().concat(mark).concat(self.git_sha.as_str()).concat("+").concat(
            self.git_branch.as_str(),
        )
    }

    /// What is said of the build.
    pub fn to_json(&self) -> (r: Json)
        ensures
            r@ == self.shown(),
    {
        Json::object().put("semver", Json::string(self.version.as_str())).put(
            "full",
            Json::Str(self.full_version()),
        ).put(
            "git",
            Json::object().put("sha", Json::string(self.git_sha.as_str())).put(
                "branch",
                Json::string(self.git_branch.as_str()),
            ).put("dirty", Json::Bool(self.git_dirty)),
        ).put("build_time", Json::string(self.build_time.as_str()))
    }
}

/// What is said of an endpoint.
pub open spec fn endpoint(path: Seq<char>) -> JsonView {
    JsonView::object().put("method"@, JsonView::Str("GET"@)).put("path"@, JsonView::Str(path))
}

/// What is said of an endpoint, with a description.
pub open spec fn described(path: Seq<char>, description: Seq<char>) -> JsonView {
    endpoint(path).put("description"@, JsonView::Str(description))
}

/// What is said of an endpoint.
pub fn endpoint_json(path: &str) -> (r: Json)
    ensures
        r@ == endpoint(path@),
{
    Json::object().put("method", Json::string("GET")).put("path", Json::string(path))
}

/// What is said of an endpoint, with a description.
pub fn described_json(path: &str, description: &str) -> (r: Json)
    ensures
        r@ == described(path@, description@),
{
    endpoint_json(path).put("description", Json::string(description))
}

/// What is said of the mirror, with its endpoints.
pub open spec fn service(build: BuildInfo, endpoints: JsonView) -> JsonView {
    JsonView::object().put("service"@, JsonView::Str("delay-mirror"@)).put(
        "version"@,
        build.shown(),
    ).put(
        "description"@,
        JsonView::Str("Delay-based security mirror for NPM / Go Modules / PyPI"@),
    ).put("endpoints"@, endpoints)
}

/// What is said of the mirror, with its endpoints.
pub fn service_json(build: &BuildInfo, endpoints: Json) -> (r: Json)
    ensures
        r@ == service(*build, endpoints@),
{
    Json::object().put("service", Json::string("delay-mirror")).put(
        "version",
        build.to_json(),
    ).put(
        "description",
        Json::string("Delay-based security mirror for NPM / Go Modules / PyPI"),
    ).put("endpoints", endpoints)
}

/// The endpoints of the mirror.
pub open spec fn endpoints() -> JsonView {
    JsonView::object().put(
        "health"@,
        described("/health"@, "Health check and configuration status"@),
    ).put(
        "npm"@,
        JsonView::object().put(
            "metadata"@,
            described("/npm/{package}"@, "Get filtered package metadata"@),
        ).put(
            "version"@,
            described("/npm/{package}/{version}"@, "Check version availability"@),
        ).put("download"@, described("/dl/{package}@{version}"@, "Download package tarball"@)),
    ).put(
        "gomod"@,
        JsonView::object().put(
            "version_list"@,
            described("/gomod/{module}/@v/list"@, "List available versions"@),
        ).put(
            "version_info"@,
            described(
                "/gomod/{module}/@v/{version}.info"@,
                "Get version info with delay check"@,
            ),
        ).put("go_mod"@, described("/gomod/{module}/@v/{version}.mod"@, "Get go.mod file"@)).put(
            "download"@,
            described("/gomod/{module}/@v/{version}.zip"@, "Download module zip"@),
        ),
    ).put(
        "pypi"@,
        JsonView::object().put(
            "simple_index"@,
            described("/pypi/simple/"@, "PyPI simple index"@),
        ).put(
            "package_list"@,
            described("/pypi/simple/{package}/"@, "List package files"@),
        ).put(
            "download"@,
            described("/pypi/packages/{filename}"@, "Download package file"@),
        ),
    )
}

/// The answer that describes the mirror.
pub fn api_index(build: &BuildInfo) -> (r: Reply)
    ensures
        r@ == open_json(200, service(*build, endpoints())),
{
    let npm = Json::object().put(
        "metadata",
        described_json("/npm/{package}", "Get filtered package metadata"),
    ).put(
        "version",
        described_json("/npm/{package}/{version}", "Check version availability"),
    ).put("download", described_json("/dl/{package}@{version}", "Download package tarball"));
    let gomod = Json::object().put(
        "version_list",
        described_json("/gomod/{module}/@v/list", "List available versions"),
    ).put(
        "version_info",
        described_json("/gomod/{module}/@v/{version}.info", "Get version info with delay check"),
    ).put("go_mod", described_json("/gomod/{module}/@v/{version}.mod", "Get go.mod file")).put(
        "download",
        described_json("/gomod/{module}/@v/{version}.zip", "Download module zip"),
    );
    let pypi = Json::object().put(
        "simple_index",
        described_json("/pypi/simple/", "PyPI simple index"),
    ).put("package_list", described_json("/pypi/simple/{package}/", "List package files")).put(
        "download",
        described_json("/pypi/packages/{filename}", "Download package file"),
    );
    let list = Json::object().put(
        "health",
        described_json("/health", "Health check and configuration status"),
    ).put("npm", npm).put("gomod", gomod).put("pypi", pypi);
    make_json_response(200, service_json(build, list))
}

/// What is said of the health of the mirror and its settings.
pub open spec fn health(build: BuildInfo, settings: JsonView) -> JsonView {
    JsonView::object().put("status"@, JsonView::Str("ok"@)).put(
        "service"@,
        JsonView::Str("delay-mirror"@),
    ).put("version"@, build.shown()).put("config"@, settings)
}

/// What is said of the health of the mirror and its settings.
pub fn health_json(build: &BuildInfo, settings: Json) -> (r: Json)
    ensures
        r@ == health(*build, settings@),
{
    Json::object().put("status", Json::string("ok")).put(
        "service",
        Json::string("delay-mirror"),
    ).put("version", build.to_json()).put("config", settings)
}

/// The settings that are shown.
pub open spec fn shown_settings(config: Config) -> JsonView {
    JsonView::object().put(
        "delay_days"@,
        JsonView::Number(text::decimal(config.delay_days as int)),
    ).put("npm_registry"@, JsonView::Str(config.npm_registry@)).put(
        "npm_download_registry"@,
        JsonView::Str(config.npm_download_registry@),
    ).put("gomod_registry"@, JsonView::Str(config.gomod_registry@)).put(
        "gomod_download_registry"@,
        JsonView::Str(config.gomod_download_registry@),
    ).put("pypi_registry"@, JsonView::Str(config.pypi_registry@)).put(
        "pypi_json_api_base"@,
        JsonView::Str(config.pypi_json_api_base@),
    ).put("pypi_download_base"@, JsonView::Str(config.pypi_download_base@)).put(
        "allowlist_enabled"@,
        JsonView::Bool(config.allowlist_enabled),
    ).put("debug_mode"@, JsonView::Bool(config.debug_mode))
}

/// The settings that are shown.
pub fn settings_json(config: &Config) -> (r: Json)
    ensures
        r@ == shown_settings(*config),
{
    Json::object().put("delay_days", Json::integer(config.delay_days)).put(
        "npm_registry",
        Json::string(config.npm_registry.as_str()),
    ).put(
        "npm_download_registry",
        Json::string(config.npm_download_registry.as_str()),
    ).put("gomod_registry", Json::string(config.gomod_registry.as_str())).put(
        "gomod_download_registry",
        Json::string(config.gomod_download_registry.as_str()),
    ).put("pypi_registry", Json::string(config.pypi_registry.as_str())).put(
        "pypi_json_api_base",
        Json::string(config.pypi_json_api_base.as_str()),
    ).put("pypi_download_base", Json::string(config.pypi_download_base.as_str())).put(
        "allowlist_enabled",
        Json::Bool(config.allowlist_enabled),
    ).put("debug_mode", Json::Bool(config.debug_mode))
}

/// The answer on the health of the mirror.
pub fn health_reply(build: &BuildInfo, config: &Config) -> (r: Reply)
    ensures
        r@ == open_json(200, health(*build, shown_settings(*config))),
{
    make_json_response(200, health_json(build, settings_json(config)))
}

/// An example of the use of a group of endpoints.
pub open spec fn example(group: Seq<char>) -> Seq<char> {
    if group == "npm"@ || group == "dl"@ {
        "/npm/axios"@
    } else if group == "gomod"@ {
        "/gomod/github.com/gin-gonic/gin/@v/list"@
    } else if group == "pypi"@ {
        "/pypi/simple/"@
    } else {
        ""@
    }
}

/// The answer that tells how a group of endpoints is used.
pub fn usage_reply(group: &str) -> (r: Reply)
    ensures
        r@ == open_json(
            200,
            JsonView::object().put("endpoint"@, JsonView::Str(group@)).put(
                "usage"@,
                JsonView::Str("See available routes under /"@ + group@),
            ).put("example"@, JsonView::Str(example(group@))),
        ),
{
    let shown = if text::same(group, "npm") || text::same(group, "dl") {
        "/npm/axios"
    } else if text::same(group, "gomod") {
        "/gomod/github.com/gin-gonic/gin/@v/list"
    } else if text::same(group, "pypi") {
        "/pypi/simple/"
    } else {
        ""
    };
    make_json_response(
        200,
        Json::object().put("endpoint", Json::string(group)).put(
            "usage",
            Json::Str("See available routes under /".to_owned().concat(group)),
        ).put("example", Json::string(shown)),
    )
}

/// The answer for a path that leads nowhere.
pub fn not_found_reply(path: &str) -> (r: Reply)
    ensures
        r@ == open_json(
            404,
            JsonView::object().put("error"@, JsonView::Str("Not Found"@)).put(
                "path"@,
                JsonView::Str("/"@ + path@),
            ).put("hint"@, JsonView::Str("Visit / for API documentation"@)),
        ),
{
    make_json_response(
        404,
        Json::object().put("error", Json::string("Not Found")).put(
            "path",
            Json::Str("/".to_owned().concat(path)),
        ).put("hint", Json::string("Visit / for API documentation")),
    )
}

/// The answer for a setting that makes no sense.
pub fn invalid_configuration(details: &str) -> (r: Reply)
    ensures
        r@ == ReplyView::json(
            500,
            JsonView::object().put("error"@, JsonView::Str("Invalid configuration"@)).put(
                "details"@,
                JsonView::Str(details@),
            ),
        ),
{
    Reply::json(
        500,
        Json::object().put("error", Json::string("Invalid configuration")).put(
            "details",
            Json::string(details),
        ),
    )
}

/// How many bytes of a text of `len` bytes a preview shows.
pub open spec fn preview_len(len: nat, limit: nat) -> nat {
    if len < limit {
        len
    } else {
        limit
    }
}

/// The first bytes of a text, at most `limit` of them.
pub fn preview<'a>(body: &'a str, limit: usize) -> (r: &'a str)
    requires
        is_char_boundary(
            encode_utf8(body@),
            preview_len(encode_utf8(body@).len(), limit as nat) as int,
        ),
    ensures
        encode_utf8(r@) == encode_utf8(body@).subrange(
            0,
            preview_len(encode_utf8(body@).len(), limit as nat) as int,
        ),
{
    let n: usize = body.as_bytes().len();
    let end: usize = if n < limit {
        n
    } else {
        limit
    };
    body.split_at(end).0
}

/// What came of a trial request: whether it could be sent and answered, and how
/// long the body is.
#[derive(Debug)]
pub enum Probe {
    NotSent,
    Failed(String),
    Answered { status: u16, body_len: u64, preview: Option<String> },
}

/// What is said of a trial request.
pub open spec fn probe_view(url: Seq<char>, probe: Probe) -> JsonView {
    match probe {
        Probe::NotSent => JsonView::object().put(
            "error"@,
            JsonView::Str("failed to create request"@),
        ),
        Probe::Failed(e) => JsonView::object().put("error"@, JsonView::Str(e@)),
        Probe::Answered { status, body_len, preview } => {
            let plain = JsonView::object().put("url"@, JsonView::Str(url)).put(
                "status"@,
                JsonView::Number(text::decimal(status as int)),
            ).put("body_len"@, JsonView::Number(text::numeral(body_len as nat, 10)));
            match preview {
                Some(p) => plain.put("body_preview"@, JsonView::Str(p@)),
                None => plain,
            }
        },
    }
}

/// What is said of a trial request.
pub fn probe_json(url: &str, probe: &Probe) -> (r: Json)
    ensures
        r@ == probe_view(url@, *probe),
{
    match probe {
        Probe::NotSent => Json::object().put("error", Json::string("failed to create request")),
        Probe::Failed(e) => Json::object().put("error", Json::string(e.as_str())),
        Probe::Answered { status, body_len, preview } => {
            let plain = Json::object().put("url", Json::string(url)).put(
                "status",
                Json::integer(*status as i64),
            ).put("body_len", Json::Number(text::numeral_text(*body_len, 10)));
            match preview {
                Some(p) => plain.put("body_preview", Json::string(p.as_str())),
                None => plain,
            }
        },
    }
}

/// The addresses of the trial requests to PyPI: the index, a package list and
/// the metadata of a package.
pub fn debug_pypi_urls(config: &Config) -> (r: (String, String, String))
    ensures
        r.0@ == text::trim_end(config.pypi_registry@, '/') + "/"@,
        r.1@ == text::trim_end(config.pypi_registry@, '/') + "/requests/"@,
        r.2@ == config.pypi_json_api_base@ + "/requests/json"@,
{
    let base = text::trim_end_char(config.pypi_registry.as_str(), '/');
    (
        base.to_owned().concat("/"),
        base.to_owned().concat("/requests/"),
        config.pypi_json_api_base.clone().concat("/requests/json"),
    )
}

/// The answer on the trial requests to PyPI.
pub fn debug_pypi_reply(config: &Config, root: &Probe, package: &Probe, metadata: &Probe) -> (r:
    Reply)
    ensures
        r@ == open_json(
            200,
            JsonView::object().put(
                "pypi_simple_root"@,
                probe_view(text::trim_end(config.pypi_registry@, '/') + "/"@, *root),
            ).put(
                "pypi_simple_pkg"@,
                probe_view(
                    text::trim_end(config.pypi_registry@, '/') + "/requests/"@,
                    *package,
                ),
            ).put(
                "pypi_json"@,
                probe_view(config.pypi_json_api_base@ + "/requests/json"@, *metadata),
            ),
        ),
{
    let (root_url, package_url, metadata_url) = debug_pypi_urls(config);
    make_json_response(
        200,
        Json::object().put("pypi_simple_root", probe_json(root_url.as_str(), root)).put(
            "pypi_simple_pkg",
            probe_json(package_url.as_str(), package),
        ).put("pypi_json", probe_json(metadata_url.as_str(), metadata)),
    )
}

/// The address of the trial request to the Go module proxy.
pub fn debug_gomod_url(config: &Config) -> (r: String)
    ensures
        r@ == text::trim_end(config.gomod_registry@, '/') + "/github.com/gin-gonic/gin/@v/list"@,
{
    text::trim_end_char(config.gomod_registry.as_str(), '/').to_owned().concat(
        "/github.com/gin-gonic/gin/@v/list",
    )
}

/// The answer on the trial request to the Go module proxy.
pub fn debug_gomod_reply(config: &Config, list: &Probe) -> (r: Reply)
    ensures
        r@ == open_json(
            200,
            JsonView::object().put(
                "gomod_list"@,
                probe_view(
                    text::trim_end(config.gomod_registry@, '/')
                        + "/github.com/gin-gonic/gin/@v/list"@,
                    *list,
                ),
            ),
        ),
{
    let url = debug_gomod_url(config);
    make_json_response(200, Json::object().put("gomod_list", probe_json(url.as_str(), list)))
}

/// Headers as an object.
pub open spec fn headers_object(headers: Seq<(Seq<char>, Seq<char>)>) -> JsonView
    decreases headers.len(),
{
    if headers.len() == 0 {
        JsonView::object()
    } else {
        headers_object(headers.drop_last()).put(
            headers.last().0,
            JsonView::Str(headers.last().1),
        )
    }
}

fn headers_json(headers: &Vec<(String, String)>) -> (r: Json)
    ensures
        r@ == headers_object(crate::reply::headers_view(headers@)),
{
    let ghost all = crate::reply::headers_view(headers@);
    let mut r = Json::object();
    let mut i: usize = 0;
    proof {
        assert(all.take(0) =~= Seq::empty());
    }
    while i < headers.len()
        invariant
            i <= headers@.len(),
            all == crate::reply::headers_view(headers@),
            r@ == headers_object(all.take(i as int)),
        decreases headers@.len() - i,
    {
        proof {
            assert(all.take(i + 1).drop_last() =~= all.take(i as int));
            assert(all.take(i + 1).last() == all[i as int]);
        }
        r = r.put(headers[i].0.as_str(), Json::string(headers[i].1.as_str()));
        i += 1;
    }
    proof {
        assert(all.take(all.len() as int) =~= all);
    }
    r
}

/// The answer on a trial download, or on why it failed.
pub fn debug_fetch_reply(
    url: &str,
    outcome: Result<(u16, Vec<(String, String)>, u64, String), String>,
) -> (r: Reply)
    ensures
        r@ == (match outcome {
            Ok((status, headers, body_len, preview)) => open_json(
                200,
                JsonView::object().put("url"@, JsonView::Str(url@)).put(
                    "status"@,
                    JsonView::Number(text::decimal(status as int)),
                ).put("headers"@, headers_object(crate::reply::headers_view(headers@))).put(
                    "body_len"@,
                    JsonView::Number(text::numeral(body_len as nat, 10)),
                ).put("body_preview"@, JsonView::Str(preview@)),
            ),
            Err(e) => open_json(
                500,
                JsonView::object().put("error"@, JsonView::Str("Fetch failed: "@ + e@)),
            ),
        }),
{
    match outcome {
        Ok((status, headers, body_len, preview)) => make_json_response(
            200,
            Json::object().put("url", Json::string(url)).put(
                "status",
                Json::integer(status as i64),
            ).put("headers", headers_json(&headers)).put(
                "body_len",
                Json::Number(text::numeral_text(body_len, 10)),
            ).put("body_preview", Json::Str(preview)),
        ),
        Err(e) => make_json_response(
            500,
            Json::object().put(
                "error",
                Json::Str("Fetch failed: ".to_owned().concat(e.as_str())),
            ),
        ),
    }
}

/// Texts as an array.
pub open spec fn texts_array(list: Seq<Seq<char>>) -> JsonView {
    JsonView::Array(Seq::new(list.len(), |i: int| JsonView::Str(list[i])))
}

fn texts_json(list: &Vec<String>) -> (r: Json)
    ensures
        r@ == texts_array(text::views(list@)),
{
    let ghost all = texts_array(text::views(list@))->Array_0;
    let mut items: Vec<Json> = Vec::new();
    let mut i: usize = 0;
    while i < list.len()
        invariant
            i <= list@.len(),
            all == texts_array(text::views(list@))->Array_0,
            all.len() == list@.len(),
            json::items_view(items@) == all.take(i as int),
        decreases list@.len() - i,
    {
        let ghost before = json::items_view(items@);
        items.push(Json::string(list[i].as_str()));
        proof {
            assert(all[i as int] == JsonView::Str(list@[i as int]@));
            assert(json::items_view(items@) =~= before.push(all[i as int]));
            assert(all.take(i + 1) =~= before.push(all[i as int]));
        }
        i += 1;
    }
    proof {
        assert(all.take(all.len() as int) =~= all);
        json::lemma_array_view(items);
    }
    Json::Array(items)
}

/// The answer on how a path is taken apart.
pub fn debug_routes_reply(test_path: &str) -> (r: Reply)
    ensures
        ({
            let parts = text::split(test_path@, '/');
            r@ == open_json(
                200,
                JsonView::object().put("test_path"@, JsonView::Str(test_path@)).put(
                    "parts"@,
                    texts_array(parts),
                ).put("parts_0"@, JsonView::Str(parts[0])).put(
                    "parts_len"@,
                    JsonView::Number(text::numeral(parts.len(), 10)),
                ).put(
                    "matches_npm_or_dl"@,
                    JsonView::Bool(parts[0] == "npm"@ || parts[0] == "dl"@),
                ).put(
                    "dispatch_npm_condition_download"@,
                    JsonView::Bool(parts[0] == "dl"@ && parts.len() >= 2),
                ),
            )
        }),
{
    let parts = text::split_text(test_path, '/');
    proof {
        text::lemma_split_nonempty(test_path@, '/');
        assert(text::views(parts@).len() == parts@.len());
    }
    let first = parts[0].as_str();
    let is_npm = text::same(first, "npm");
    let is_dl = text::same(first, "dl");
    make_json_response(
        200,
        Json::object().put("test_path", Json::string(test_path)).put(
            "parts",
            texts_json(&parts),
        ).put("parts_0", Json::string(first)).put(
            "parts_len",
            Json::Number(text::numeral_text(parts.len() as u64, 10)),
        ).put("matches_npm_or_dl", Json::Bool(is_npm || is_dl)).put(
            "dispatch_npm_condition_download",
            Json::Bool(is_dl && parts.len() >= 2),
        ),
    )
}

proof fn lemma_package_path(method: Seq<char>, parts: Seq<Seq<char>>, debug_mode: bool)
    requires
        method == "GET"@ || method == "HEAD"@,
        parts.len() > 0,
        forall|i: int| 0 <= i < parts.len() ==> !(#[trigger] parts[i]).contains('/'),
        is_group(parts[0]),
        parts.last().len() > 0,
    ensures
        route_of(method, "/"@ + text::join(parts, "/"@), debug_mode) == package_route(
            text::join(parts, "/"@),
        ),
        route_of(method, "/"@ + text::join(parts, "/"@) + "/"@, debug_mode) == package_route(
            text::join(parts, "/"@),
        ),
        text::split(text::join(parts, "/"@), '/') == parts,
{
    reveal_strlit("/");
    reveal_strlit("npm");
    reveal_strlit("dl");
    reveal_strlit("gomod");
    reveal_strlit("pypi");
    reveal_strlit("health");
    reveal_strlit("debug/fetch");
    reveal_strlit("debug/routes");
    reveal_strlit("debug/pypi");
    reveal_strlit("debug/gomod");
    let sep = seq!['/'];
    assert("/"@ =~= sep);
    let path = text::join(parts, sep);
    text::law_join_split(parts, '/');
    lemma_ends(parts);
    assert(path.len() >= 2);
    assert(path[0] == parts[0][0] && path[1] != 'e');
    let a = sep + path;
    let b = sep + path + sep;
    assert(a.skip(1) =~= path);
    assert(b.skip(1) =~= path + sep);
    assert((path + sep)[0] == path[0]);
    assert(text::trim_start(path, '/') == path);
    assert(text::trim_start(a, '/') == path);
    assert(text::trim_start(path + sep, '/') == path + sep);
    assert(text::trim_start(b, '/') == path + sep);
    assert((path + sep).drop_last() =~= path);
    assert(text::trim_end(path, '/') == path);
    assert(text::trim_end(path + sep, '/') == path);
    assert("health"@[0] == 'h' && path[0] != 'h');
    assert("debug/fetch"@[1] == 'e' && "debug/routes"@[1] == 'e');
    assert("debug/pypi"@[1] == 'e' && "debug/gomod"@[1] == 'e');
}

proof fn lemma_ends(parts: Seq<Seq<char>>)
    requires
        parts.len() > 0,
        parts[0].len() >= 2,
        parts.last().len() > 0,
        !parts.last().contains('/'),
    ensures
        ({
            let path = text::join(parts, seq!['/']);
            &&& path.len() >= 2
            &&& path[0] == parts[0][0]
            &&& path[1] == parts[0][1]
            &&& path.last() != '/'
        }),
{
    let sep = seq!['/'];
    let path = text::join(parts, sep);
    let last = parts.last();
    assert(last.contains(last[last.len() - 1]));
    if parts.len() > 1 {
        let rest = parts.skip(1);
        assert(seq![parts[0]] + rest =~= parts);
        text::lemma_join_add(seq![parts[0]], rest, sep);
        assert(text::join(seq![parts[0]], sep) == parts[0]);
        assert(path == text::join(parts.drop_last(), sep) + sep + last);
    }
}

/// Package metadata, a version and a tarball are routed by their paths, with or without a
/// slash at the end and in debug mode or not.
#[verifier::rlimit(40)]
pub proof fn law_npm_routes(
    method: Seq<char>,
    package: Seq<char>,
    version: Seq<char>,
    id: Seq<Seq<char>>,
    debug_mode: bool,
)
    requires
        method == "GET"@ || method == "HEAD"@,
        package.len() > 0,
        !package.contains('/'),
        version.len() > 0,
        !version.contains('/'),
        id.len() > 0,
        forall|i: int| 0 <= i < id.len() ==> !(#[trigger] id[i]).contains('/'),
        id.last().len() > 0,
    ensures
        route_of(method, "/npm/"@ + package, debug_mode) is NpmMetadata,
        route_of(method, "/npm/"@ + package + "/"@, debug_mode) is NpmMetadata,
        route_of(method, "/npm/"@ + package + "/"@ + version, debug_mode) is NpmVersion,
        route_of(method, "/dl/"@ + text::join(id, "/"@), debug_mode) is NpmDownload,
{
    reveal_strlit("/");
    reveal_strlit("npm");
    reveal_strlit("dl");
    reveal_strlit("/npm/");
    reveal_strlit("/dl/");
    let sep = seq!['/'];
    assert("/"@ =~= sep);
    assert("npm"@.len() == 3 && "dl"@.len() == 2);
    lemma_headed(method, "npm"@, seq![package], debug_mode);
    assert(text::join(seq![package], sep) == package);
    assert("/npm/"@ + package =~= sep + ("npm"@ + sep + package));
    assert("/npm/"@ + package + "/"@ =~= sep + ("npm"@ + sep + package) + sep);
    let both = seq![package, version];
    lemma_headed(method, "npm"@, both, debug_mode);
    assert(both.drop_last() =~= seq![package]);
    assert(text::join(both, sep) =~= package + sep + version);
    assert("/npm/"@ + package + "/"@ + version =~= sep + ("npm"@ + sep + text::join(both, sep)));
    lemma_headed(method, "dl"@, id, debug_mode);
    assert("/dl/"@ + text::join(id, sep) =~= sep + ("dl"@ + sep + text::join(id, sep)));
}

proof fn lemma_headed(method: Seq<char>, head: Seq<char>, rest: Seq<Seq<char>>, debug_mode: bool)
    requires
        method == "GET"@ || method == "HEAD"@,
        is_group(head),
        rest.len() > 0,
        forall|i: int| 0 <= i < rest.len() ==> !(#[trigger] rest[i]).contains('/'),
        rest.last().len() > 0,
    ensures
        ({
            let sep = seq!['/'];
            let path = head + sep + text::join(rest, sep);
            let parts = seq![head] + rest;
            &&& route_of(method, sep + path, debug_mode) == package_route(path)
            &&& route_of(method, sep + path + sep, debug_mode) == package_route(path)
            &&& text::split(path, '/') == parts
            &&& parts[0] == head
            &&& parts.len() == rest.len() + 1
            &&& parts.last() == rest.last()
            &&& parts[1] == rest[0]
        }),
{
    reveal_strlit("/");
    reveal_strlit("npm");
    reveal_strlit("dl");
    reveal_strlit("gomod");
    reveal_strlit("pypi");
    let sep = seq!['/'];
    assert("/"@ =~= sep);
    let parts = seq![head] + rest;
    text::lemma_join_add(seq![head], rest, sep);
    assert(text::join(seq![head], sep) == head);
    assert(!head.contains('/'));
    assert forall|i: int| 0 <= i < parts.len() implies !(#[trigger] parts[i]).contains('/') by {
        if i > 0 {
            assert(parts[i] == rest[i - 1]);
        }
    }
    assert(parts.last() == rest.last());
    lemma_package_path(method, parts, debug_mode);
}

/// A module path is routed by its last piece: the list, or the ending of the file.
#[verifier::rlimit(40)]
pub proof fn law_gomod_routes(
    method: Seq<char>,
    front: Seq<Seq<char>>,
    version: Seq<char>,
    debug_mode: bool,
)
    requires
        method == "GET"@ || method == "HEAD"@,
        front.len() > 0,
        forall|i: int| 0 <= i < front.len() ==> !(#[trigger] front[i]).contains('/'),
        !version.contains('/'),
    ensures
        ({
            let path = "/gomod/"@ + text::join(front, "/"@) + "/"@;
            &&& route_of(method, path + "list"@, debug_mode) == RouteView::Gomod(
                GomodEndpoint::List,
            )
            &&& route_of(method, path + version + ".info"@, debug_mode) == RouteView::Gomod(
                GomodEndpoint::Info,
            )
            &&& route_of(method, path + version + ".mod"@, debug_mode) == RouteView::Gomod(
                GomodEndpoint::Mod,
            )
            &&& route_of(method, path + version + ".zip"@, debug_mode) == RouteView::Gomod(
                GomodEndpoint::Zip,
            )
        }),
{
    reveal_strlit("list");
    reveal_strlit(".info");
    reveal_strlit(".mod");
    reveal_strlit(".zip");
    let path = "/gomod/"@ + text::join(front, "/"@) + "/"@;
    let a = version + ".info"@;
    let b = version + ".mod"@;
    let c = version + ".zip"@;
    assert forall|i: int| 0 <= i < a.len() implies a[i] != '/' by {
        if i < version.len() {
            assert(version.contains(version[i]));
        }
    }
    assert forall|i: int| 0 <= i < b.len() implies b[i] != '/' by {
        if i < version.len() {
            assert(version.contains(version[i]));
        }
    }
    assert forall|i: int| 0 <= i < c.len() implies c[i] != '/' by {
        if i < version.len() {
            assert(version.contains(version[i]));
        }
    }
    lemma_gomod(method, front, "list"@, debug_mode);
    lemma_gomod(method, front, a, debug_mode);
    lemma_gomod(method, front, b, debug_mode);
    lemma_gomod(method, front, c, debug_mode);
    assert(path + version + ".info"@ =~= path + a);
    assert(path + version + ".mod"@ =~= path + b);
    assert(path + version + ".zip"@ =~= path + c);
    assert(a.subrange(a.len() - 5, a.len() as int) =~= ".info"@);
    assert(b.subrange(b.len() - 4, b.len() as int) =~= ".mod"@);
    assert(c.subrange(c.len() - 4, c.len() as int) =~= ".zip"@);
    assert(".info"@.is_suffix_of(a) && ".mod"@.is_suffix_of(b) && ".zip"@.is_suffix_of(c));
    assert(a.last() == 'o' && b.last() == 'd' && c.last() == 'p' && "list"@[3] == 't');
    assert(".info"@[4] == 'o' && ".mod"@[3] == 'd');
    assert(!".info"@.is_suffix_of(b) && !".info"@.is_suffix_of(c) && !".mod"@.is_suffix_of(c));
}

proof fn lemma_gomod(method: Seq<char>, front: Seq<Seq<char>>, file: Seq<char>, debug_mode: bool)
    requires
        method == "GET"@ || method == "HEAD"@,
        front.len() > 0,
        forall|i: int| 0 <= i < front.len() ==> !(#[trigger] front[i]).contains('/'),
        file.len() > 0,
        !file.contains('/'),
        gomod_route(seq![file]) is Some,
    ensures
        route_of(method, "/gomod/"@ + text::join(front, "/"@) + "/"@ + file, debug_mode)
            == gomod_route(seq![file])->0,
{
    reveal_strlit("/");
    reveal_strlit("npm");
    reveal_strlit("dl");
    reveal_strlit("gomod");
    reveal_strlit("/gomod/");
    let sep = seq!['/'];
    assert("/"@ =~= sep);
    assert("npm"@.len() == 3 && "dl"@.len() == 2 && "gomod"@.len() == 5);
    let rest = front + seq![file];
    text::lemma_join_add(front, seq![file], sep);
    assert(text::join(seq![file], sep) == file);
    assert forall|i: int| 0 <= i < rest.len() implies !(#[trigger] rest[i]).contains('/') by {
        if i < front.len() {
            assert(rest[i] == front[i]);
        }
    }
    lemma_headed(method, "gomod"@, rest, debug_mode);
    let path = "/gomod/"@ + text::join(front, "/"@) + "/"@ + file;
    assert(path =~= sep + ("gomod"@ + sep + text::join(rest, sep)));
    assert(seq![file].last() == file);
}

/// The Python index, a package of it and a file are routed by their paths.
#[verifier::rlimit(40)]
pub proof fn law_pypi_routes(
    method: Seq<char>,
    package: Seq<char>,
    front: Seq<Seq<char>>,
    file: Seq<char>,
    debug_mode: bool,
)
    requires
        method == "GET"@ || method == "HEAD"@,
        package.len() > 0,
        !package.contains('/'),
        forall|i: int| 0 <= i < front.len() ==> !(#[trigger] front[i]).contains('/'),
        file.len() > 0,
        !file.contains('/'),
    ensures
        route_of(method, "/pypi/simple/"@, debug_mode) is PypiIndex,
        route_of(method, "/pypi/simple/"@ + package, debug_mode) == (RouteView::PypiPackage {
            package,
        }),
        route_of(method, "/pypi/simple/"@ + package + "/"@, debug_mode) == (
        RouteView::PypiPackage { package }),
        route_of(method, "/pypi/packages/"@ + text::join(front.push(file), "/"@), debug_mode) == (
        RouteView::PypiDownload { filename: file }),
{
    reveal_strlit("/");
    reveal_strlit("npm");
    reveal_strlit("dl");
    reveal_strlit("gomod");
    reveal_strlit("pypi");
    reveal_strlit("simple");
    reveal_strlit("packages");
    reveal_strlit("/pypi/simple/");
    reveal_strlit("/pypi/packages/");
    let sep = seq!['/'];
    assert("/"@ =~= sep);
    assert("npm"@.len() == 3 && "dl"@.len() == 2 && "gomod"@.len() == 5 && "pypi"@.len() == 4);
    assert("simple"@.len() == 6 && "packages"@.len() == 8);
    lemma_headed(method, "pypi"@, seq!["simple"@], debug_mode);
    assert(text::join(seq!["simple"@], sep) == "simple"@);
    assert("/pypi/simple/"@ =~= sep + ("pypi"@ + sep + "simple"@) + sep);
    let both = seq!["simple"@, package];
    lemma_headed(method, "pypi"@, both, debug_mode);
    assert(both.drop_last() =~= seq!["simple"@]);
    assert(text::join(both, sep) =~= "simple"@ + sep + package);
    assert("/pypi/simple/"@ + package =~= sep + ("pypi"@ + sep + text::join(both, sep)));
    assert("/pypi/simple/"@ + package + "/"@ =~= sep + ("pypi"@ + sep + text::join(both, sep))
        + sep);
    assert((seq!["pypi"@] + both)[2] == package);
    let below = front.push(file);
    let rest = seq!["packages"@] + below;
    text::lemma_join_add(seq!["packages"@], below, sep);
    assert(text::join(seq!["packages"@], sep) == "packages"@);
    assert forall|i: int| 0 <= i < rest.len() implies !(#[trigger] rest[i]).contains('/') by {
        if 0 < i < rest.len() - 1 {
            assert(rest[i] == front[i - 1]);
        }
    }
    lemma_headed(method, "pypi"@, rest, debug_mode);
    assert("/pypi/packages/"@ + text::join(below, sep) =~= sep + ("pypi"@ + sep + text::join(
        rest,
        sep,
    )));
}

/// The root is the index, and a path that begins with no word of a group is not found.
#[verifier::rlimit(40)]
pub proof fn law_other_routes(method: Seq<char>, parts: Seq<Seq<char>>, debug_mode: bool)
    requires
        method == "GET"@ || method == "HEAD"@,
        parts.len() > 0,
        forall|i: int|
            0 <= i < parts.len() ==> !(#[trigger] parts[i]).contains('/') && parts[i].len() > 0,
    ensures
        route_of(method, "/"@, debug_mode) is Index,
        route_of(method, "/health"@, debug_mode) is Health,
        parts[0] != "npm"@ && parts[0] != "dl"@ && parts[0] != "gomod"@ && parts[0] != "pypi"@
            && parts[0] != "health"@ && parts[0] != "debug"@ ==> route_of(
            method,
            "/"@ + text::join(parts, "/"@),
            debug_mode,
        ) == (RouteView::NotFound { path: text::join(parts, "/"@) }),
{
    reveal_strlit("/");
    reveal_strlit("health");
    reveal_strlit("/health");
    let sep = seq!['/'];
    assert("/"@ =~= sep);
    assert(sep.skip(1) =~= Seq::empty());
    assert(text::trim_start(sep.skip(1), '/') == sep.skip(1));
    assert(text::trim_start(sep, '/') =~= Seq::empty());
    assert("/health"@.skip(1) =~= "health"@);
    assert(text::trim_start("health"@, '/') == "health"@);
    assert(text::trim_start("/health"@, '/') == "health"@);
    assert(text::trim_end("health"@, '/') == "health"@);
    let path = text::join(parts, sep);
    text::law_join_split(parts, '/');
    lemma_outer(parts);
    let full = sep + path;
    assert(full.skip(1) =~= path);
    assert(text::trim_start(path, '/') == path);
    assert(text::trim_start(full, '/') == path);
    assert(text::trim_end(path, '/') == path);
    if parts[0] != "health"@ && parts[0] != "debug"@ {
        reveal_strlit("debug");
        reveal_strlit("debug/fetch");
        reveal_strlit("debug/routes");
        reveal_strlit("debug/pypi");
        reveal_strlit("debug/gomod");
        text::lemma_split_head("debug"@, "debug/fetch"@.skip(6), '/');
        text::lemma_split_head("debug"@, "debug/routes"@.skip(6), '/');
        text::lemma_split_head("debug"@, "debug/pypi"@.skip(6), '/');
        text::lemma_split_head("debug"@, "debug/gomod"@.skip(6), '/');
        assert("debug"@ + sep + "debug/fetch"@.skip(6) =~= "debug/fetch"@);
        assert("debug"@ + sep + "debug/routes"@.skip(6) =~= "debug/routes"@);
        assert("debug"@ + sep + "debug/pypi"@.skip(6) =~= "debug/pypi"@);
        assert("debug"@ + sep + "debug/gomod"@.skip(6) =~= "debug/gomod"@);
        assert(text::split("debug/fetch"@, '/')[0] == "debug"@);
        assert(text::split("debug/routes"@, '/')[0] == "debug"@);
        assert(text::split("debug/pypi"@, '/')[0] == "debug"@);
        assert(text::split("debug/gomod"@, '/')[0] == "debug"@);
        text::law_join_split(seq!["health"@], '/');
        assert(text::join(seq!["health"@], sep) == "health"@);
        assert(text::split("health"@, '/')[0] == "health"@);
    }
}

proof fn lemma_outer(parts: Seq<Seq<char>>)
    requires
        parts.len() > 0,
        forall|i: int|
            0 <= i < parts.len() ==> !(#[trigger] parts[i]).contains('/') && parts[i].len() > 0,
    ensures
        ({
            let path = text::join(parts, seq!['/']);
            path.len() > 0 && path[0] != '/' && path.last() != '/'
        }),
{
    let sep = seq!['/'];
    let path = text::join(parts, sep);
    let last = parts[parts.len() - 1];
    let first = parts[0];
    assert(last.contains(last[last.len() - 1]));
    assert(first.contains(first[0]));
    if parts.len() > 1 {
        let rest = parts.skip(1);
        assert(seq![parts[0]] + rest =~= parts);
        text::lemma_join_add(seq![parts[0]], rest, sep);
        assert(text::join(seq![parts[0]], sep) == parts[0]);
        assert(path == text::join(parts.drop_last(), sep) + sep + last);
    }
}

/// A group without a path below it is answered with its usage.
pub proof fn law_usage_routes(method: Seq<char>, debug_mode: bool)
    requires
        method == "GET"@ || method == "HEAD"@,
    ensures
        route_of(method, "/npm"@, debug_mode) == (RouteView::Usage { endpoint: "npm"@ }),
        route_of(method, "/dl"@, debug_mode) == (RouteView::Usage { endpoint: "dl"@ }),
        route_of(method, "/pypi"@, debug_mode) is PypiIndex,
{
    reveal_strlit("/");
    reveal_strlit("npm");
    reveal_strlit("dl");
    reveal_strlit("gomod");
    reveal_strlit("pypi");
    reveal_strlit("/npm");
    reveal_strlit("/dl");
    reveal_strlit("/pypi");
    assert("npm"@.len() == 3 && "dl"@.len() == 2 && "gomod"@.len() == 5 && "pypi"@.len() == 4);
    let sep = seq!['/'];
    assert("/"@ =~= sep);
    lemma_package_path(method, seq!["npm"@], debug_mode);
    lemma_package_path(method, seq!["dl"@], debug_mode);
    lemma_package_path(method, seq!["pypi"@], debug_mode);
    assert(text::join(seq!["npm"@], sep) == "npm"@);
    assert(text::join(seq!["dl"@], sep) == "dl"@);
    assert(text::join(seq!["pypi"@], sep) == "pypi"@);
    assert("/npm"@ =~= sep + "npm"@);
    assert("/dl"@ =~= sep + "dl"@);
    assert("/pypi"@ =~= sep + "pypi"@);
}

/// The settings that are shown are those of the configuration, each under its own name.
#[verifier::rlimit(40)]
pub proof fn law_shown_settings(config: Config)
    ensures
        ({
            let shown = shown_settings(config);
            &&& shown.get("delay_days"@) == Some(
                JsonView::Number(text::decimal(config.delay_days as int)),
            )
            &&& shown.get("npm_registry"@) == Some(JsonView::Str(config.npm_registry@))
            &&& shown.get("npm_download_registry"@) == Some(
                JsonView::Str(config.npm_download_registry@),
            )
            &&& shown.get("gomod_registry"@) == Some(JsonView::Str(config.gomod_registry@))
            &&& shown.get("gomod_download_registry"@) == Some(
                JsonView::Str(config.gomod_download_registry@),
            )
            &&& shown.get("pypi_registry"@) == Some(JsonView::Str(config.pypi_registry@))
            &&& shown.get("pypi_json_api_base"@) == Some(JsonView::Str(config.pypi_json_api_base@))
            &&& shown.get("pypi_download_base"@) == Some(JsonView::Str(config.pypi_download_base@))
            &&& shown.get("allowlist_enabled"@) == Some(JsonView::Bool(config.allowlist_enabled))
            &&& shown.get("debug_mode"@) == Some(JsonView::Bool(config.debug_mode))
        }),
{
    reveal_strlit("delay_days");
    reveal_strlit("npm_registry");
    reveal_strlit("npm_download_registry");
    reveal_strlit("gomod_registry");
    reveal_strlit("gomod_download_registry");
    reveal_strlit("pypi_registry");
    reveal_strlit("pypi_json_api_base");
    reveal_strlit("pypi_download_base");
    reveal_strlit("allowlist_enabled");
    reveal_strlit("debug_mode");
    assert("delay_days"@.len() == 10 && "npm_registry"@.len() == 12);
    assert("npm_download_registry"@.len() == 21 && "gomod_registry"@.len() == 14);
    assert("gomod_download_registry"@.len() == 23 && "pypi_registry"@.len() == 13);
    assert("pypi_json_api_base"@.len() == 18 && "pypi_download_base"@.len() == 18);
    assert("allowlist_enabled"@.len() == 17 && "debug_mode"@.len() == 10);
    assert("delay_days"@[2] == 'l' && "debug_mode"@[2] == 'b');
    assert("pypi_json_api_base"@[5] == 'j' && "pypi_download_base"@[5] == 'd');
    json::lemma_puts();
}

/// What is shown of a build names its version, its commit and its branch, and the full
/// version says whether it was built from a clean tree.
pub proof fn law_build_shown(build: BuildInfo)
    ensures
        build.full() == build.version@ + (if build.git_dirty {
            "-dev."@
        } else {
            "-"@
        }) + build.git_sha@ + "+"@ + build.git_branch@,
        build.shown().get("semver"@) == Some(JsonView::Str(build.version@)),
        build.shown().get("full"@) == Some(JsonView::Str(build.full())),
        build.shown().get("build_time"@) == Some(JsonView::Str(build.build_time@)),
        build.shown().get("git"@) matches Some(git) && git.get("sha"@) == Some(
            JsonView::Str(build.git_sha@),
        ) && git.get("branch"@) == Some(JsonView::Str(build.git_branch@)) && git.get("dirty"@)
            == Some(JsonView::Bool(build.git_dirty)),
{
    reveal_strlit("semver");
    reveal_strlit("full");
    reveal_strlit("git");
    reveal_strlit("build_time");
    reveal_strlit("sha");
    reveal_strlit("branch");
    reveal_strlit("dirty");
    assert("semver"@.len() == 6 && "full"@.len() == 4 && "git"@.len() == 3);
    assert("build_time"@.len() == 10 && "sha"@.len() == 3 && "branch"@.len() == 6);
    assert("dirty"@.len() == 5);
    json::lemma_puts();
}

/// A preview is the whole of a body that is not longer than the limit, and else as long
/// as the limit.
pub proof fn law_preview_len(len: nat, limit: nat)
    ensures
        len <= limit ==> preview_len(len, limit) == len,
        len >= limit ==> preview_len(len, limit) == limit,
{
}

/// The headers that are shown are all found under their names; of two of one name the
/// later is shown.
pub proof fn law_headers_shown(
    headers: Seq<(Seq<char>, Seq<char>)>,
    name: Seq<char>,
    value: Seq<char>,
    other: Seq<char>,
)
    ensures
        json::is_ordered(headers_object(headers)),
        headers_object(headers.push((name, value))).get(name) == Some(JsonView::Str(value)),
        other != name ==> headers_object(headers.push((name, value))).get(other) == headers_object(
            headers,
        ).get(other),
        headers.len() == 0 ==> headers_object(headers).get(other) is None,
    decreases headers.len(),
{
    json::lemma_puts();
    if headers.len() > 0 {
        law_headers_shown(
            headers.drop_last(),
            headers.last().0,
            headers.last().1,
            headers.last().0,
        );
    }
    assert(headers.push((name, value)).drop_last() =~= headers);
}

/// An endpoint is described by its method, its path and what it is for.
pub proof fn law_endpoint_members(path: Seq<char>, description: Seq<char>)
    ensures
        endpoint(path).get("method"@) == Some(JsonView::Str("GET"@)),
        endpoint(path).get("path"@) == Some(JsonView::Str(path)),
        described(path, description).get("method"@) == Some(JsonView::Str("GET"@)),
        described(path, description).get("path"@) == Some(JsonView::Str(path)),
        described(path, description).get("description"@) == Some(JsonView::Str(description)),
{
    reveal_strlit("method");
    reveal_strlit("path");
    reveal_strlit("description");
    assert("method"@.len() == 6 && "path"@.len() == 4 && "description"@.len() == 11);
    json::lemma_puts();
}

/// The index and the state of the service show the build, and the endpoints or settings
/// that they are given.
pub proof fn law_service_members(build: BuildInfo, given: JsonView)
    ensures
        service(build, given).get("service"@) == Some(JsonView::Str("delay-mirror"@)),
        service(build, given).get("version"@) == Some(build.shown()),
        service(build, given).get("endpoints"@) == Some(given),
        health(build, given).get("status"@) == Some(JsonView::Str("ok"@)),
        health(build, given).get("service"@) == Some(JsonView::Str("delay-mirror"@)),
        health(build, given).get("version"@) == Some(build.shown()),
        health(build, given).get("config"@) == Some(given),
{
    reveal_strlit("service");
    reveal_strlit("version");
    reveal_strlit("description");
    reveal_strlit("endpoints");
    reveal_strlit("status");
    reveal_strlit("config");
    assert("service"@.len() == 7 && "version"@.len() == 7 && "description"@.len() == 11);
    assert("endpoints"@.len() == 9 && "status"@.len() == 6 && "config"@.len() == 6);
    assert("service"@[0] == 's' && "version"@[0] == 'v');
    assert("status"@[0] == 's' && "config"@[0] == 'c');
    json::lemma_puts();
}

/// An answer in JSON is open to every origin.
pub proof fn law_open_json(status: u16, body: JsonView)
    ensures
        open_json(status, body).status == status,
        open_json(status, body).body == crate::reply::BodyView::Json(body),
        open_json(status, body).headers == seq![
            ("Content-Type"@, "application/json"@),
            ("Access-Control-Allow-Origin"@, "*"@),
        ],
{
    assert(open_json(status, body).headers =~= seq![
        ("Content-Type"@, "application/json"@),
        ("Access-Control-Allow-Origin"@, "*"@),
    ]);
}

/// A probe that was answered shows its address, its status, the length of the body and
/// the preview, if there is one; one that failed shows why.
pub proof fn law_probe_members(
    url: Seq<char>,
    status: u16,
    body_len: u64,
    preview: Option<String>,
    error: String,
)
    ensures
        ({
            let shown = probe_view(url, Probe::Answered { status, body_len, preview });
            &&& shown.get("url"@) == Some(JsonView::Str(url))
            &&& shown.get("status"@) == Some(JsonView::Number(text::decimal(status as int)))
            &&& shown.get("body_len"@) == Some(
                JsonView::Number(text::decimal(body_len as int)),
            )
            &&& shown.get("body_preview"@) == (match preview {
                Some(p) => Some(JsonView::Str(p@)),
                None => None,
            })
        }),
        probe_view(url, Probe::Failed(error)).get("error"@) == Some(JsonView::Str(error@)),
        probe_view(url, Probe::NotSent).get("error"@) is Some,
{
    reveal_strlit("url");
    reveal_strlit("status");
    reveal_strlit("body_len");
    reveal_strlit("body_preview");
    assert("url"@.len() == 3 && "status"@.len() == 6 && "body_len"@.len() == 8);
    assert("body_preview"@.len() == 12);
    json::lemma_puts();
    json::law_plain_values("body_preview"@, url, JsonView::Null);
}

/// The texts of a list are shown in their order.
pub proof fn law_texts_array(list: Seq<Seq<char>>, i: int)
    requires
        0 <= i < list.len(),
    ensures
        texts_array(list) matches JsonView::Array(items) && items.len() == list.len() && items[i]
            == JsonView::Str(list[i]),
{
}

/// A path below a group that leads nowhere is not found, and is named.
#[verifier::rlimit(40)]
pub proof fn law_nowhere(method: Seq<char>, rest: Seq<Seq<char>>, debug_mode: bool)
    requires
        method == "GET"@ || method == "HEAD"@,
        rest.len() > 0,
        forall|i: int| 0 <= i < rest.len() ==> !(#[trigger] rest[i]).contains('/'),
        rest.last().len() > 0,
    ensures
        rest.len() > 2 ==> route_of(method, "/npm/"@ + text::join(rest, "/"@), debug_mode) == (
        RouteView::NotFound { path: "npm/"@ + text::join(rest, "/"@) }),
        rest[0] != "simple"@ && rest[0] != "packages"@ ==> route_of(
            method,
            "/pypi/"@ + text::join(rest, "/"@),
            debug_mode,
        ) == (RouteView::NotFound { path: "pypi/"@ + text::join(rest, "/"@) }),
        gomod_route(rest) is None ==> route_of(
            method,
            "/gomod/"@ + text::join(rest, "/"@),
            debug_mode,
        ) == (RouteView::NotFound { path: "gomod/"@ + text::join(rest, "/"@) }),
{
    reveal_strlit("/");
    reveal_strlit("npm");
    reveal_strlit("dl");
    reveal_strlit("gomod");
    reveal_strlit("pypi");
    reveal_strlit("npm/");
    reveal_strlit("gomod/");
    reveal_strlit("pypi/");
    reveal_strlit("/npm/");
    reveal_strlit("/gomod/");
    reveal_strlit("/pypi/");
    let sep = seq!['/'];
    assert("/"@ =~= sep);
    assert("npm"@.len() == 3 && "dl"@.len() == 2 && "gomod"@.len() == 5 && "pypi"@.len() == 4);
    let below = text::join(rest, sep);
    lemma_headed(method, "npm"@, rest, debug_mode);
    lemma_headed(method, "gomod"@, rest, debug_mode);
    lemma_headed(method, "pypi"@, rest, debug_mode);
    assert("npm/"@ + below =~= "npm"@ + sep + below);
    assert("gomod/"@ + below =~= "gomod"@ + sep + below);
    assert("pypi/"@ + below =~= "pypi"@ + sep + below);
    assert("/npm/"@ + below =~= sep + ("npm"@ + sep + below));
    assert("/gomod/"@ + below =~= sep + ("gomod"@ + sep + below));
    assert("/pypi/"@ + below =~= sep + ("pypi"@ + sep + below));
}

/// A module path whose last piece is neither the list nor has an ending of a file leads
/// nowhere.
pub proof fn law_gomod_last(parts: Seq<Seq<char>>)
    requires
        parts.len() > 0,
    ensures
        gomod_route(parts) is None <==> parts.last() != "list"@ && !".info"@.is_suffix_of(
            parts.last(),
        ) && !".mod"@.is_suffix_of(parts.last()) && !".zip"@.is_suffix_of(parts.last()),
{
}

/// The example that is given for a group is a path of that group.
pub proof fn law_example(group: Seq<char>)
    ensures
        group == "npm"@ || group == "dl"@ ==> example(group) == "/npm/axios"@,
        group == "gomod"@ ==> example(group) == "/gomod/github.com/gin-gonic/gin/@v/list"@,
        group == "pypi"@ ==> example(group) == "/pypi/simple/"@,
        !is_group(group) ==> example(group).len() == 0,
        is_group(group) <==> group == "npm"@ || group == "dl"@ || group == "gomod"@ || group
            == "pypi"@,
{
    reveal_strlit("npm");
    reveal_strlit("dl");
    reveal_strlit("gomod");
    reveal_strlit("pypi");
    reveal_strlit("");
    assert("npm"@.len() == 3 && "dl"@.len() == 2 && "gomod"@.len() == 5 && "pypi"@.len() == 4);
}

/// Slashes before and behind a path make no difference.
pub proof fn law_outer_slashes(method: Seq<char>, path: Seq<char>, debug_mode: bool)
    ensures
        route_of(method, seq!['/'] + path, debug_mode) == route_of(method, path, debug_mode),
        route_of(method, path + seq!['/'], debug_mode) == route_of(method, path, debug_mode),
{
    let sep = seq!['/'];
    let a = sep + path;
    assert(a.skip(1) =~= path);
    assert(text::trim_start(a, '/') == text::trim_start(path, '/'));
    lemma_trailing(path);
}

proof fn lemma_trailing(path: Seq<char>)
    ensures
        text::trim_end(text::trim_start(path + seq!['/'], '/'), '/') == text::trim_end(
            text::trim_start(path, '/'),
            '/',
        ),
    decreases path.len(),
{
    let sep = seq!['/'];
    let b = path + sep;
    if path.len() == 0 {
        assert(b.skip(1) =~= Seq::empty());
        assert(text::trim_start(b.skip(1), '/') == b.skip(1));
        assert(text::trim_start(b, '/') =~= Seq::empty());
        assert(text::trim_start(path, '/') =~= Seq::empty());
    } else if path[0] == '/' {
        assert(b.skip(1) =~= path.skip(1) + sep);
        lemma_trailing(path.skip(1));
    } else {
        assert(b[0] == path[0]);
        assert(b.drop_last() =~= path);
        assert(text::trim_start(b, '/') == b);
        assert(text::trim_start(path, '/') == path);
    }
}

/// In debug mode each of the four debug paths leads to its own answer.
pub proof fn law_debug_routes(method: Seq<char>, debug_mode: bool)
    requires
        method == "GET"@ || method == "HEAD"@,
    ensures
        debug_mode ==> route_of(method, "/debug/fetch"@, debug_mode) is DebugFetch,
        debug_mode ==> route_of(method, "/debug/routes"@, debug_mode) is DebugRoutes,
        debug_mode ==> route_of(method, "/debug/pypi"@, debug_mode) is DebugPypi,
        debug_mode ==> route_of(method, "/debug/gomod"@, debug_mode) is DebugGomod,
{
    reveal_strlit("health");
    reveal_strlit("debug/fetch");
    reveal_strlit("debug/routes");
    reveal_strlit("debug/pypi");
    reveal_strlit("debug/gomod");
    reveal_strlit("/debug/fetch");
    reveal_strlit("/debug/routes");
    reveal_strlit("/debug/pypi");
    reveal_strlit("/debug/gomod");
    assert("/debug/fetch"@ =~= seq!['/'] + "debug/fetch"@);
    assert("/debug/routes"@ =~= seq!['/'] + "debug/routes"@);
    assert("/debug/pypi"@ =~= seq!['/'] + "debug/pypi"@);
    assert("/debug/gomod"@ =~= seq!['/'] + "debug/gomod"@);
    law_outer_slashes(method, "debug/fetch"@, debug_mode);
    law_outer_slashes(method, "debug/routes"@, debug_mode);
    law_outer_slashes(method, "debug/pypi"@, debug_mode);
    law_outer_slashes(method, "debug/gomod"@, debug_mode);
    assert(text::trim_start("debug/fetch"@, '/') == "debug/fetch"@);
    assert(text::trim_start("debug/routes"@, '/') == "debug/routes"@);
    assert(text::trim_start("debug/pypi"@, '/') == "debug/pypi"@);
    assert(text::trim_start("debug/gomod"@, '/') == "debug/gomod"@);
    assert(text::trim_end("debug/fetch"@, '/') == "debug/fetch"@);
    assert(text::trim_end("debug/routes"@, '/') == "debug/routes"@);
    assert(text::trim_end("debug/pypi"@, '/') == "debug/pypi"@);
    assert(text::trim_end("debug/gomod"@, '/') == "debug/gomod"@);
    assert("health"@.len() == 6 && "debug/fetch"@.len() == 11 && "debug/routes"@.len() == 12);
    assert("debug/pypi"@.len() == 10 && "debug/gomod"@.len() == 11);
    assert("debug/fetch"@[6] == 'f' && "debug/gomod"@[6] == 'g');
}

/// The index lists the endpoints of each group with their paths.
#[verifier::rlimit(60)]
pub proof fn law_listed_endpoints()
    ensures
        endpoints().get("health"@) == Some(
            described("/health"@, "Health check and configuration status"@),
        ),
        endpoints().get("npm"@) matches Some(npm) && {
            &&& npm.get("metadata"@) == Some(
                described("/npm/{package}"@, "Get filtered package metadata"@),
            )
            &&& npm.get("version"@) == Some(
                described("/npm/{package}/{version}"@, "Check version availability"@),
            )
            &&& npm.get("download"@) == Some(
                described("/dl/{package}@{version}"@, "Download package tarball"@),
            )
        },
        endpoints().get("gomod"@) matches Some(gomod) && {
            &&& gomod.get("version_list"@) == Some(
                described("/gomod/{module}/@v/list"@, "List available versions"@),
            )
            &&& gomod.get("version_info"@) == Some(
                described(
                    "/gomod/{module}/@v/{version}.info"@,
                    "Get version info with delay check"@,
                ),
            )
            &&& gomod.get("go_mod"@) == Some(
                described("/gomod/{module}/@v/{version}.mod"@, "Get go.mod file"@),
            )
            &&& gomod.get("download"@) == Some(
                described("/gomod/{module}/@v/{version}.zip"@, "Download module zip"@),
            )
        },
        endpoints().get("pypi"@) matches Some(pypi) && {
            &&& pypi.get("simple_index"@) == Some(
                described("/pypi/simple/"@, "PyPI simple index"@),
            )
            &&& pypi.get("package_list"@) == Some(
                described("/pypi/simple/{package}/"@, "List package files"@),
            )
            &&& pypi.get("download"@) == Some(
                described("/pypi/packages/{filename}"@, "Download package file"@),
            )
        },
{
    reveal_strlit("health");
    reveal_strlit("npm");
    reveal_strlit("gomod");
    reveal_strlit("pypi");
    reveal_strlit("metadata");
    reveal_strlit("version");
    reveal_strlit("download");
    reveal_strlit("version_list");
    reveal_strlit("version_info");
    reveal_strlit("go_mod");
    reveal_strlit("simple_index");
    reveal_strlit("package_list");
    assert("health"@.len() == 6 && "npm"@.len() == 3 && "gomod"@.len() == 5 && "pypi"@.len() == 4);
    assert("metadata"@.len() == 8 && "version"@.len() == 7 && "download"@.len() == 8);
    assert("metadata"@[0] == 'm' && "download"@[0] == 'd');
    assert("version_list"@[8] == 'l' && "version_info"@[8] == 'i' && "go_mod"@.len() == 6);
    assert("version_list"@.len() == 12 && "version_info"@.len() == 12);
    assert("simple_index"@[0] == 's' && "package_list"@[0] == 'p');
    assert("simple_index"@.len() == 12 && "package_list"@.len() == 12);
    json::lemma_puts();
}

} // verus!
