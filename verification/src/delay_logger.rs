//! The audit log of delay decisions.

use vstd::prelude::*;

use crate::json::{Json, JsonView};
use crate::text;
use crate::timestamp::{self, Timestamp};

verus! {

/// The kind of registry that a package comes from.
#[derive(Debug, Clone, Copy, PartialEq, Eq, Structural)]
pub enum PackageType {
    Npm,
    GoMod,
    PyPI,
}

impl PackageType {
    /// The name of the kind.
    pub open spec fn name(self) -> Seq<char> {
        match self {
            PackageType::Npm => "npm"@,
            PackageType::GoMod => "gomod"@,
            PackageType::PyPI => "pypi"@,
        }
    }

    /// The name of the kind.
    pub fn to_string(&self) -> (s: String)
        ensures
            s@ == self.name(),
    {
        match self {
            PackageType::Npm => "npm".to_owned(),
            PackageType::GoMod => "gomod".to_owned(),
            PackageType::PyPI => "pypi".to_owned(),
        }
    }
}

/// What was decided of a version.
#[derive(Debug, Clone, Copy, PartialEq, Eq, Structural)]
pub enum DelayAction {
    Allowed,
    Denied,
    Downgraded,
}

impl DelayAction {
    /// The name of the decision.
    pub open spec fn name(self) -> Seq<char> {
        match self {
            DelayAction::Allowed => "allowed"@,
            DelayAction::Denied => "denied"@,
            DelayAction::Downgraded => "downgraded"@,
        }
    }

    /// The name of the decision.
    pub fn to_string(&self) -> (s: String)
        ensures
            s@ == self.name(),
    {
        match self {
            DelayAction::Allowed => "allowed".to_owned(),
            DelayAction::Denied => "denied".to_owned(),
            DelayAction::Downgraded => "downgraded".to_owned(),
        }
    }
}

/// A line of the log.
#[derive(Debug, Clone)]
pub struct DelayLogEntry {
    pub timestamp: Timestamp,
    pub event: String,
    pub package_type: PackageType,
    pub package_name: String,
    pub original_version: String,
    pub actual_version: Option<String>,
    pub action: DelayAction,
    pub reason: String,
    pub client_ip: Option<String>,
}

/// What a line of the log says, apart from when it was written.
#[verifier::ext_equal]
pub struct LogView {
    pub event: Seq<char>,
    pub package_type: PackageType,
    pub package_name: Seq<char>,
    pub original_version: Seq<char>,
    pub actual_version: Option<Seq<char>>,
    pub action: DelayAction,
    pub reason: Seq<char>,
    pub client_ip: Option<Seq<char>>,
}

impl View for DelayLogEntry {
    type V = LogView;

    open spec fn view(&self) -> LogView {
        LogView {
            event: self.event@,
            package_type: self.package_type,
            package_name: self.package_name@,
            original_version: self.original_version@,
            actual_version: text::opt_view(self.actual_version),
            action: self.action,
            reason: self.reason@,
            client_ip: text::opt_view(self.client_ip),
        }
    }
}

/// What several lines of the log say.
pub open spec fn log_views(entries: Seq<DelayLogEntry>) -> Seq<LogView> {
    Seq::new(entries.len(), |i: int| entries[i]@)
}

/// Whether every line was written at a moment that has a date.
pub open spec fn all_dated(entries: Seq<DelayLogEntry>) -> bool {
    forall|i: int| 0 <= i < entries.len() ==> (#[trigger] entries[i]).timestamp.is_date()
}

impl LogView {
    /// A line on a version that is served as it is.
    pub open spec fn allowed(
        package_type: PackageType,
        package_name: Seq<char>,
        original_version: Seq<char>,
        client_ip: Option<Seq<char>>,
    ) -> LogView {
        LogView {
            event: "version_check"@,
            package_type,
            package_name,
            original_version,
            actual_version: None,
            action: DelayAction::Allowed,
            reason: "Version passed delay check"@,
            client_ip,
        }
    }

    /// A line on a version that was withheld.
    pub open spec fn blocked(
        package_type: PackageType,
        package_name: Seq<char>,
        original_version: Seq<char>,
        reason: Seq<char>,
        client_ip: Option<Seq<char>>,
    ) -> LogView {
        LogView {
            event: "version_check"@,
            package_type,
            package_name,
            original_version,
            actual_version: None,
            action: DelayAction::Denied,
            reason,
            client_ip,
        }
    }

    /// A line on a version that another one stood in for.
    pub open spec fn downgraded(
        package_type: PackageType,
        package_name: Seq<char>,
        original_version: Seq<char>,
        actual_version: Seq<char>,
        reason: Seq<char>,
        client_ip: Option<Seq<char>>,
    ) -> LogView {
        LogView {
            event: "version_check"@,
            package_type,
            package_name,
            original_version,
            actual_version: Some(actual_version),
            action: DelayAction::Downgraded,
            reason,
            client_ip,
        }
    }
}

impl LogView {
    /// The line as JSON, written at the given time.
    pub open spec fn json(self, timestamp: Seq<char>) -> JsonView {
        JsonView::object().put("timestamp"@, JsonView::Str(timestamp)).put(
            "event"@,
            JsonView::Str(self.event),
        ).put("package_type"@, JsonView::Str(self.package_type.name())).put(
            "package"@,
            JsonView::Str(self.package_name),
        ).put("original_version"@, JsonView::Str(self.original_version)).put(
            "actual_version"@,
            JsonView::optional(self.actual_version),
        ).put("action"@, JsonView::Str(self.action.name())).put(
            "reason"@,
            JsonView::Str(self.reason),
        ).put("client_ip"@, JsonView::optional(self.client_ip))
    }
}

impl DelayLogEntry {
    /// The line as JSON, given how its time is written.
    pub fn json_at(&self, timestamp: &str) -> (r: Json)
        ensures
            r@ == self@.json(timestamp@),
    {
        Json::object().put("timestamp", Json::string(timestamp)).put(
            "event",
            Json::string(self.event.as_str()),
        ).put("package_type", Json::Str(self.package_type.to_string())).put(
            "package",
            Json::string(self.package_name.as_str()),
        ).put("original_version", Json::string(self.original_version.as_str())).put(
            "actual_version",
            Json::optional(&self.actual_version),
        ).put("action", Json::Str(self.action.to_string())).put(
            "reason",
            Json::string(self.reason.as_str()),
        ).put("client_ip", Json::optional(&self.client_ip))
    }

    /// The line as JSON.
    pub fn to_json(&self) -> (r: Json)
        requires
            self.timestamp.is_date(),
        ensures
            r@ == self@.json(timestamp::zulu_text(self.timestamp.secs, self.timestamp.nanos)),
    {
        self.json_at(timestamp::zulu(&self.timestamp).as_str())
    }
}

impl DelayLogEntry {
    /// A line for the moment `timestamp`.
    pub fn at(
        timestamp: Timestamp,
        package_type: PackageType,
        package_name: String,
        original_version: String,
        actual_version: Option<String>,
        action: DelayAction,
        reason: String,
        client_ip: Option<String>,
    ) -> (r: Self)
        ensures
            r.timestamp == timestamp,
            r@ == (LogView {
                event: "version_check"@,
                package_type,
                package_name: package_name@,
                original_version: original_version@,
                actual_version: text::opt_view(actual_version),
                action,
                reason: reason@,
                client_ip: text::opt_view(client_ip),
            }),
    {
        DelayLogEntry {
            timestamp,
            event: "version_check".to_owned(),
            package_type,
            package_name,
            original_version,
            actual_version,
            action,
            reason,
            client_ip,
        }
    }

    /// A line for the present moment.
    pub fn new(
        package_type: PackageType,
        package_name: String,
        original_version: String,
        actual_version: Option<String>,
        action: DelayAction,
        reason: String,
        client_ip: Option<String>,
    ) -> (r: Self)
        ensures
            r.timestamp.is_date(),
            r@ == (LogView {
                event: "version_check"@,
                package_type,
                package_name: package_name@,
                original_version: original_version@,
                actual_version: text::opt_view(actual_version),
                action,
                reason: reason@,
                client_ip: text::opt_view(client_ip),
            }),
    {
        DelayLogEntry::at(
            timestamp::utc_now(),
            package_type,
            package_name,
            original_version,
            actual_version,
            action,
            reason,
            client_ip,
        )
    }
}

fn owned(s: Option<&str>) -> (r: Option<String>)
    ensures
        text::opt_view(r) == text::slice_view(s),
{
    match s {
        Some(t) => Some(t.to_owned()),
        None => None,
    }
}

/// A log of one line.
pub(crate) fn one_entry(entry: DelayLogEntry) -> (r: Vec<DelayLogEntry>)
    requires
        entry.timestamp.is_date(),
    ensures
        all_dated(r@),
        log_views(r@) == seq![entry@],
{
    let mut logs: Vec<DelayLogEntry> = Vec::new();
    let ghost line = entry@;
    logs.push(entry);
    proof {
        assert(log_views(logs@) =~= seq![line]);
    }
    logs
}

/// A log without lines.
pub(crate) fn no_entries() -> (r: Vec<DelayLogEntry>)
    ensures
        all_dated(r@),
        log_views(r@) == Seq::<LogView>::empty(),
{
    let logs: Vec<DelayLogEntry> = Vec::new();
    proof {
        assert(log_views(logs@) =~= Seq::empty());
    }
    logs
}

/// Makes the lines of the log.
pub struct DelayLogger;

impl Default for DelayLogger {
    fn default() -> (r: Self)
        ensures
            r == DelayLogger,
    {
        DelayLogger
    }
}

impl DelayLogger {
    /// A logger.
    pub fn new() -> (r: Self)
        ensures
            r == DelayLogger,
    {
        DelayLogger
    }

    /// The line on a version that is served as it is.
    pub fn log_allowed(
        &self,
        package_type: PackageType,
        package_name: &str,
        original_version: &str,
        client_ip: Option<&str>,
    ) -> (r: DelayLogEntry)
        ensures
            r@ == LogView::allowed(
                package_type,
                package_name@,
                original_version@,
                text::slice_view(client_ip),
            ),
            r.timestamp.is_date(),
    {
        DelayLogEntry::new(
            package_type,
            package_name.to_owned(),
            original_version.to_owned(),
            None,
            DelayAction::Allowed,
            "Version passed delay check".to_owned(),
            owned(client_ip),
        )
    }

    /// The line on a version that is withheld.
    pub fn log_blocked(
        &self,
        package_type: PackageType,
        package_name: &str,
        original_version: &str,
        reason: &str,
        client_ip: Option<&str>,
    ) -> (r: DelayLogEntry)
        ensures
            r@ == LogView::blocked(
                package_type,
                package_name@,
                original_version@,
                reason@,
                text::slice_view(client_ip),
            ),
            r.timestamp.is_date(),
    {
        DelayLogEntry::new(
            package_type,
            package_name.to_owned(),
            original_version.to_owned(),
            None,
            DelayAction::Denied,
            reason.to_owned(),
            owned(client_ip),
        )
    }

    /// The line on a version that another one stands in for.
    pub fn log_downgraded(
        &self,
        package_type: PackageType,
        package_name: &str,
        original_version: &str,
        actual_version: &str,
        reason: &str,
        client_ip: Option<&str>,
    ) -> (r: DelayLogEntry)
        ensures
            r@ == LogView::downgraded(
                package_type,
                package_name@,
                original_version@,
                actual_version@,
                reason@,
                text::slice_view(client_ip),
            ),
            r.timestamp.is_date(),
    {
        DelayLogEntry::new(
            package_type,
            package_name.to_owned(),
            original_version.to_owned(),
            Some(actual_version.to_owned()),
            DelayAction::Downgraded,
            reason.to_owned(),
            owned(client_ip),
        )
    }
}

/// A line that is written down gives the moment, the kind, the package, both versions,
/// the decision, the reason and the client.
#[verifier::rlimit(40)]
pub proof fn law_line_members(line: LogView, moment: Seq<char>)
    ensures
        ({
            let value = line.json(moment);
            &&& value.get("timestamp"@) == Some(JsonView::Str(moment))
            &&& value.get("event"@) == Some(JsonView::Str(line.event))
            &&& value.get("package_type"@) == Some(
                JsonView::Str(
                    match line.package_type {
                        PackageType::Npm => "npm"@,
                        PackageType::GoMod => "gomod"@,
                        PackageType::PyPI => "pypi"@,
                    },
                ),
            )
            &&& value.get("package"@) == Some(JsonView::Str(line.package_name))
            &&& value.get("original_version"@) == Some(JsonView::Str(line.original_version))
            &&& value.get("actual_version"@) == Some(
                match line.actual_version {
                    Some(v) => JsonView::Str(v),
                    None => JsonView::Null,
                },
            )
            &&& value.get("action"@) == Some(
                JsonView::Str(
                    match line.action {
                        DelayAction::Allowed => "allowed"@,
                        DelayAction::Denied => "denied"@,
                        DelayAction::Downgraded => "downgraded"@,
                    },
                ),
            )
            &&& value.get("reason"@) == Some(JsonView::Str(line.reason))
            &&& value.get("client_ip"@) == Some(
                match line.client_ip {
                    Some(ip) => JsonView::Str(ip),
                    None => JsonView::Null,
                },
            )
        }),
{
    reveal_strlit("timestamp");
    reveal_strlit("event");
    reveal_strlit("package_type");
    reveal_strlit("package");
    reveal_strlit("original_version");
    reveal_strlit("actual_version");
    reveal_strlit("action");
    reveal_strlit("reason");
    reveal_strlit("client_ip");
    assert("timestamp"@.len() == 9 && "event"@.len() == 5 && "package_type"@.len() == 12);
    assert("package"@.len() == 7 && "original_version"@.len() == 16);
    assert("actual_version"@.len() == 14 && "action"@.len() == 6 && "reason"@.len() == 6);
    assert("client_ip"@.len() == 9);
    assert("timestamp"@[0] == 't' && "client_ip"@[0] == 'c');
    assert("action"@[0] == 'a' && "reason"@[0] == 'r');
    crate::json::lemma_puts();
}

/// The three kinds of lines: one that was allowed names no other version, one that was
/// blocked gives the reason, and one that was replaced names what was served.
pub proof fn law_lines(
    package_type: PackageType,
    package: Seq<char>,
    version: Seq<char>,
    served: Seq<char>,
    reason: Seq<char>,
    client_ip: Option<Seq<char>>,
)
    ensures
        ({
            let a = LogView::allowed(package_type, package, version, client_ip);
            let b = LogView::blocked(package_type, package, version, reason, client_ip);
            let c = LogView::downgraded(package_type, package, version, served, reason, client_ip);
            &&& a.action == DelayAction::Allowed && a.actual_version is None
            &&& b.action == DelayAction::Denied && b.actual_version is None
            &&& c.action == DelayAction::Downgraded && c.actual_version == Some(served)
            &&& b.reason == reason && c.reason == reason && a.reason
                == "Version passed delay check"@
            &&& a.package_type == package_type && b.package_type == package_type && c.package_type
                == package_type
            &&& a.package_name == package && b.package_name == package && c.package_name == package
            &&& a.original_version == version && b.original_version == version
                && c.original_version == version
            &&& a.client_ip == client_ip && b.client_ip == client_ip && c.client_ip == client_ip
            &&& a.event == "version_check"@ && b.event == a.event && c.event == a.event
        }),
{
}

} // verus!
