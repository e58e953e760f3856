//! Lists of the packages that may be served at all.

use vstd::prelude::*;

use crate::config::Config;
use crate::delay_logger::PackageType;
use crate::json::{Json, JsonView};
use crate::reply::{Reply, ReplyView};
use crate::text;

verus! {

/// The allowed packages of each kind; a kind without a list is not restricted.
#[derive(Debug, Clone)]
pub struct AllowlistConfig {
    pub npm: Option<Vec<String>>,
    pub gomod: Option<Vec<String>>,
    pub pypi: Option<Vec<String>>,
}

impl Default for AllowlistConfig {
    fn default() -> (r: Self)
        ensures
            r.npm is None,
            r.gomod is None,
            r.pypi is None,
    {
        AllowlistConfig { npm: None, gomod: None, pypi: None }
    }
}

impl AllowlistConfig {
    /// The list for a kind of package.
    pub open spec fn list(self, package_type: PackageType) -> Option<Vec<String>> {
        match package_type {
            PackageType::Npm => self.npm,
            PackageType::GoMod => self.gomod,
            PackageType::PyPI => self.pypi,
        }
    }

    /// Whether any list has entries.
    pub open spec fn has_entries(self) -> bool {
        ||| self.npm matches Some(v) && v@.len() > 0
        ||| self.gomod matches Some(v) && v@.len() > 0
        ||| self.pypi matches Some(v) && v@.len() > 0
    }
}

/// Whether `name` fits `pattern`, in which an asterisk stands for any sequence
/// of characters and every other character for itself.
pub open spec fn fits(pattern: Seq<char>, name: Seq<char>) -> bool
    decreases pattern.len(), name.len(),
{
    if pattern.len() == 0 {
        name.len() == 0
    } else if pattern[0] == '*' {
        fits(pattern.skip(1), name) || (name.len() > 0 && fits(pattern, name.skip(1)))
    } else {
        name.len() > 0 && name[0] == pattern[0] && fits(pattern.skip(1), name.skip(1))
    }
}

/// Whether `name` fits one of the patterns.
pub open spec fn fits_any(patterns: Seq<String>, name: Seq<char>) -> bool {
    exists|i: int| 0 <= i < patterns.len() && fits(#[trigger] patterns[i]@, name)
}

/// For each end of `name`, whether it fits the end of `pattern` from `from` on.
spec fn row_of(row: Seq<bool>, pattern: Seq<char>, from: int, name: Seq<char>) -> bool {
    &&& row.len() == name.len() + 1
    &&& forall|j: int|
        0 <= j <= name.len() ==> #[trigger] row[j] == fits(pattern.skip(from), name.skip(j))
}

/// Which ends of `name` fit `pattern`, found from the end of the pattern back.
fn last_rows(pattern: &Vec<char>, name: &Vec<char>) -> (row: Vec<bool>)
    ensures
        row_of(row@, pattern@, 0, name@),
{
    let n: usize = name.len();
    let mut row: Vec<bool> = Vec::new();
    let mut k: usize = 0;
    while k < n
        invariant
            n == name@.len(),
            k <= n,
            row@.len() == k,
            forall|j: int| 0 <= j < k ==> !(#[trigger] row@[j]),
        decreases n - k,
    {
        row.push(false);
        k += 1;
    }
    row.push(true);
    let mut i: usize = pattern.len();
    proof {
        assert(pattern@.skip(i as int) =~= Seq::empty());
    }
    while i > 0
        invariant
            i <= pattern@.len(),
            n == name@.len(),
            row_of(row@, pattern@, i as int, name@),
        decreases i,
    {
        i -= 1;
        let ghost before = row@;
        let ghost rest = pattern@.skip(i as int);
        proof {
            assert(rest.skip(1) =~= pattern@.skip(i + 1));
            assert(rest[0] == pattern@[i as int]);
            assert(name@.skip(n as int).len() == 0);
        }
        let last = pattern[i] == '*' && row[n];
        let mut below = row[n];
        row.set(n, last);
        let mut j: usize = n;
        proof {
            assert(before[n as int] == fits(pattern@.skip(i + 1), name@.skip(n as int)));
            assert(row@[n as int] == fits(rest, name@.skip(n as int)));
        }
        while j > 0
            invariant
                i < pattern@.len(),
                n == name@.len(),
                j <= n,
                row@.len() == n + 1,
                before.len() == n + 1,
                row_of(before, pattern@, i + 1, name@),
                rest == pattern@.skip(i as int),
                rest.skip(1) == pattern@.skip(i + 1),
                rest[0] == pattern@[i as int],
                below == before[j as int],
                forall|l: int| 0 <= l < j ==> #[trigger] row@[l] == before[l],
                forall|l: int|
                    j <= l <= n ==> #[trigger] row@[l] == fits(rest, name@.skip(l)),
            decreases j,
        {
            let ghost tail = name@.skip(j - 1);
            proof {
                assert(tail.skip(1) =~= name@.skip(j as int));
                assert(tail[0] == name@[j - 1]);
                assert(before[j - 1] == fits(pattern@.skip(i + 1), tail));
                assert(before[j as int] == fits(pattern@.skip(i + 1), name@.skip(j as int)));
                assert(row@[j as int] == fits(rest, name@.skip(j as int)));
            }
            let here = row[j - 1];
            let fit = if pattern[i] == '*' {
                here || row[j]
            } else {
                name[j - 1] == pattern[i] && below
            };
            row.set(j - 1, fit);
            below = here;
            j -= 1;
        }
    }
    row
}

/// Decides for each name which packages may be served.
pub struct AllowlistManager {
    config: AllowlistConfig,
    enabled: bool,
}

impl AllowlistManager {
    /// The lists.
    pub closed spec fn lists(self) -> AllowlistConfig {
        self.config
    }

    /// Whether the lists apply.
    pub closed spec fn applies(self) -> bool {
        self.enabled
    }

    /// Whether a package may be served.
    pub open spec fn allows(self, package_type: PackageType, name: Seq<char>) -> bool {
        self.applies() ==> (self.lists().list(package_type) matches Some(patterns) ==> fits_any(
            patterns@,
            name,
        ))
    }

    /// A manager for what the environment sets: `None` where no lists are set,
    /// `Some(None)` where they cannot be read.
    pub fn from_env(set: Option<Option<AllowlistConfig>>) -> (r: Self)
        ensures
            r.applies() == (set is Some),
            match set {
                Some(Some(config)) => r.lists() == config,
                _ => r.lists().npm is None && r.lists().gomod is None && r.lists().pypi is None,
            },
    {
        match set {
            Some(Some(config)) => AllowlistManager { config, enabled: true },
            Some(None) => AllowlistManager { config: AllowlistConfig::default(), enabled: true },
            None => AllowlistManager { config: AllowlistConfig::default(), enabled: false },
        }
    }

    /// A manager that applies the lists if any has entries.
    pub fn from_config(config: AllowlistConfig) -> (r: Self)
        ensures
            r.lists() == config,
            r.applies() == config.has_entries(),
    {
        let npm = match &config.npm {
            Some(v) => v.len() > 0,
            None => false,
        };
        let gomod = match &config.gomod {
            Some(v) => v.len() > 0,
            None => false,
        };
        let pypi = match &config.pypi {
            Some(v) => v.len() > 0,
            None => false,
        };
        AllowlistManager { config, enabled: npm || gomod || pypi }
    }

    /// Whether a package may be served.
    pub fn is_allowed(&self, package_type: &PackageType, name: &str) -> (r: bool)
        ensures
            r == self.allows(*package_type, name@),
    {
        if !self.enabled {
            return true;
        }
        let list = match package_type {
            PackageType::Npm => &self.config.npm,
            PackageType::GoMod => &self.config.gomod,
            PackageType::PyPI => &self.config.pypi,
        };
        match list {
            Some(entries) => {
                let mut i: usize = 0;
                while i < entries.len()
                    invariant
                        self.applies(),
                        self.lists().list(*package_type) == Some(*entries),
                        i <= entries@.len(),
                        forall|j: int| 0 <= j < i ==> !fits(#[trigger] entries@[j]@, name@),
                    decreases entries@.len() - i,
                {
                    if AllowlistManager::match_name(entries[i].as_str(), name) {
                        proof {
                            assert(fits(entries@[i as int]@, name@));
                        }
                        return true;
                    }
                    i += 1;
                }
                false
            },
            None => true,
        }
    }

    /// Whether `name` fits `pattern`.
    fn match_name(pattern: &str, name: &str) -> (r: bool)
        ensures
            r == fits(pattern@, name@),
    {
        let p = text::chars_of(pattern);
        let n = text::chars_of(name);
        let row = last_rows(&p, &n);
        proof {
            assert(p@.skip(0) =~= p@);
            assert(n@.skip(0) =~= n@);
        }
        row[0]
    }

    /// Whether the lists apply.
    pub fn is_enabled(&self) -> (r: bool)
        ensures
            r == self.applies(),
    {
        self.enabled
    }

    /// The lists.
    pub fn config(&self) -> (r: &AllowlistConfig)
        ensures
            *r == self.lists(),
    {
        &self.config
    }
}

/// The answer for a package that may not be served.
pub open spec fn not_allowed(name: Seq<char>) -> ReplyView {
    ReplyView::labelled_json(
        403,
        JsonView::object().put("error"@, JsonView::Str("Package not allowed"@)).put(
            "package"@,
            JsonView::Str(name),
        ).put("message"@, JsonView::Str("This package is not in the allowlist"@)),
    )
}

/// The answer for a package that may not be served: for every package that the
/// lists leave out, where the configuration turns them on, and for no other.
pub fn refusal(
    config: &Config,
    manager: &AllowlistManager,
    package_type: PackageType,
    name: &str,
) -> (r: Option<Reply>)
    ensures
        r is Some <==> config.allowlist_enabled && !manager.allows(package_type, name@),
        r matches Some(reply) ==> reply@ == not_allowed(name@),
{
    if !config.allowlist_enabled || manager.is_allowed(&package_type, name) {
        return None;
    }
    let body = Json::object().put("error", Json::string("Package not allowed")).put(
        "package",
        Json::string(name),
    ).put("message", Json::string("This package is not in the allowlist"));
    Some(Reply::labelled_json(403, body))
}

/// A pattern without an asterisk fits the name that it spells, and no other.
pub proof fn law_exact_match(pattern: Seq<char>, name: Seq<char>)
    requires
        !pattern.contains('*'),
    ensures
        fits(pattern, name) <==> name == pattern,
    decreases pattern.len(),
{
    if pattern.len() > 0 {
        assert(pattern[0] != '*');
        assert forall|i: int| 0 <= i < pattern.skip(1).len() implies pattern.skip(1)[i] != '*' by {
            assert(pattern[i + 1] == pattern.skip(1)[i]);
        }
        if name.len() > 0 {
            law_exact_match(pattern.skip(1), name.skip(1));
            if name[0] == pattern[0] && name.skip(1) == pattern.skip(1) {
                assert(name =~= seq![name[0]] + name.skip(1));
                assert(pattern =~= seq![pattern[0]] + pattern.skip(1));
            }
        }
    } else if name.len() == 0 {
        assert(name =~= pattern);
    }
}

/// An asterisk alone fits every name.
pub proof fn law_asterisk_fits_all(name: Seq<char>)
    ensures
        fits(seq!['*'], name),
    decreases name.len(),
{
    assert(seq!['*'].skip(1) =~= Seq::<char>::empty());
    assert(fits(Seq::<char>::empty(), name) == (name.len() == 0));
    if name.len() > 0 {
        law_asterisk_fits_all(name.skip(1));
    }
}

/// A pattern that ends in its only asterisk fits the names that begin with what
/// stands before it.
pub proof fn law_prefix_match(prefix: Seq<char>, name: Seq<char>)
    requires
        !prefix.contains('*'),
    ensures
        fits(prefix.push('*'), name) <==> prefix.is_prefix_of(name),
    decreases prefix.len(),
{
    let pattern = prefix.push('*');
    if prefix.len() == 0 {
        assert(pattern =~= seq!['*']);
        law_asterisk_fits_all(name);
        assert(prefix =~= name.subrange(0, 0));
    } else {
        assert(prefix[0] != '*');
        assert(pattern.skip(1) =~= prefix.skip(1).push('*'));
        assert forall|i: int| 0 <= i < prefix.skip(1).len() implies prefix.skip(1)[i] != '*' by {
            assert(prefix[i + 1] == prefix.skip(1)[i]);
        }
        if name.len() > 0 {
            law_prefix_match(prefix.skip(1), name.skip(1));
            if prefix.is_prefix_of(name) {
                assert(prefix[0] == name.subrange(0, prefix.len() as int)[0]);
                assert(prefix.skip(1) =~= name.skip(1).subrange(0, prefix.len() - 1)) by {
                    assert(prefix =~= name.subrange(0, prefix.len() as int));
                }
            }
            if prefix[0] == name[0] && prefix.skip(1).is_prefix_of(name.skip(1)) {
                assert(prefix =~= seq![prefix[0]] + prefix.skip(1));
                assert(name.subrange(0, prefix.len() as int) =~= seq![name[0]] + name.skip(
                    1,
                ).subrange(0, prefix.len() - 1));
            }
        }
    }
}

/// An asterisk stands for any text: a pattern with one fits whatever stands
/// between texts that fit what is before and behind it.
pub proof fn law_asterisk_any_text(
    before: Seq<char>,
    behind: Seq<char>,
    start: Seq<char>,
    middle: Seq<char>,
    end: Seq<char>,
)
    requires
        fits(before, start),
        fits(behind, end),
    ensures
        fits(before + seq!['*'] + behind, start + middle + end),
    decreases before.len(), start.len(), middle.len(),
{
    let pattern = before + seq!['*'] + behind;
    let name = start + middle + end;
    if before.len() == 0 {
        assert(pattern[0] == '*');
        assert(pattern.skip(1) =~= behind);
        if middle.len() == 0 {
            assert(name =~= end);
        } else {
            law_asterisk_any_text(before, behind, start, middle.skip(1), end);
            assert(name.skip(1) =~= start + middle.skip(1) + end);
        }
    } else {
        assert(pattern[0] == before[0]);
        assert(pattern.skip(1) =~= before.skip(1) + seq!['*'] + behind);
        if before[0] == '*' {
            if fits(before.skip(1), start) {
                law_asterisk_any_text(before.skip(1), behind, start, middle, end);
            } else {
                law_asterisk_any_text(before, behind, start.skip(1), middle, end);
                assert(name.skip(1) =~= start.skip(1) + middle + end);
            }
        } else {
            law_asterisk_any_text(before.skip(1), behind, start.skip(1), middle, end);
            assert(name[0] == start[0]);
            assert(name.skip(1) =~= start.skip(1) + middle + end);
        }
    }
}

/// Lists without entries restrict nothing.
pub proof fn law_empty_lists_allow_all(
    manager: AllowlistManager,
    package_type: PackageType,
    name: Seq<char>,
)
    requires
        manager.applies() == manager.lists().has_entries(),
        !manager.lists().has_entries(),
    ensures
        manager.allows(package_type, name),
{
}

/// A package is held to the list of its own kind, and to that alone.
pub proof fn law_own_list(manager: AllowlistManager, name: Seq<char>, i: int)
    requires
        manager.applies(),
    ensures
        manager.lists().npm is None ==> manager.allows(PackageType::Npm, name),
        manager.lists().gomod is None ==> manager.allows(PackageType::GoMod, name),
        manager.lists().pypi is None ==> manager.allows(PackageType::PyPI, name),
        manager.lists().npm matches Some(list) ==> (0 <= i < list@.len() && fits(list@[i]@, name)
            ==> manager.allows(PackageType::Npm, name)),
        manager.lists().gomod matches Some(list) ==> (0 <= i < list@.len() && fits(
            list@[i]@,
            name,
        ) ==> manager.allows(PackageType::GoMod, name)),
        manager.lists().pypi matches Some(list) ==> (0 <= i < list@.len() && fits(list@[i]@, name)
            ==> manager.allows(PackageType::PyPI, name)),
        manager.lists().npm matches Some(list) ==> ((forall|j: int|
            0 <= j < list@.len() ==> !fits(#[trigger] list@[j]@, name)) ==> !manager.allows(
            PackageType::Npm,
            name,
        )),
        manager.lists().gomod matches Some(list) ==> ((forall|j: int|
            0 <= j < list@.len() ==> !fits(#[trigger] list@[j]@, name)) ==> !manager.allows(
            PackageType::GoMod,
            name,
        )),
        manager.lists().pypi matches Some(list) ==> ((forall|j: int|
            0 <= j < list@.len() ==> !fits(#[trigger] list@[j]@, name)) ==> !manager.allows(
            PackageType::PyPI,
            name,
        )),
{
}

/// Where no list applies every package is allowed.
pub proof fn law_not_applied(manager: AllowlistManager, package_type: PackageType, name: Seq<char>)
    requires
        !manager.applies(),
    ensures
        manager.allows(package_type, name),
{
}

/// The lists apply once one of them, of whatever kind, has an entry.
pub proof fn law_has_entries(config: AllowlistConfig)
    ensures
        config.npm matches Some(list) ==> (list@.len() > 0 ==> config.has_entries()),
        config.gomod matches Some(list) ==> (list@.len() > 0 ==> config.has_entries()),
        config.pypi matches Some(list) ==> (list@.len() > 0 ==> config.has_entries()),
        config.has_entries() ==> config.npm is Some || config.gomod is Some || config.pypi is Some,
{
}

/// A name that fits a pattern with an asterisk begins with what stands before the first
/// asterisk, and what stands behind that asterisk fits some end of the rest of the name.
pub proof fn law_asterisk_parts(before: Seq<char>, behind: Seq<char>, name: Seq<char>) -> (k: int)
    requires
        !before.contains('*'),
        fits(before + seq!['*'] + behind, name),
    ensures
        before.is_prefix_of(name),
        before.len() <= k <= name.len(),
        fits(behind, name.skip(k)),
    decreases before.len(), name.len(),
{
    let pattern = before + seq!['*'] + behind;
    if before.len() == 0 {
        assert(pattern[0] == '*');
        assert(pattern.skip(1) =~= behind);
        assert(before =~= name.subrange(0, 0));
        if fits(behind, name) {
            assert(name.skip(0) =~= name);
            0
        } else {
            let k = law_asterisk_parts(before, behind, name.skip(1));
            assert(name.skip(1).skip(k) =~= name.skip(k + 1));
            k + 1
        }
    } else {
        assert(before.contains(before[0]));
        assert(pattern[0] == before[0]);
        let rest = before.skip(1);
        assert forall|i: int| 0 <= i < rest.len() implies rest[i] != '*' by {
            assert(before.contains(before[i + 1]));
        }
        assert(pattern.skip(1) =~= rest + seq!['*'] + behind);
        let k = law_asterisk_parts(rest, behind, name.skip(1));
        assert(name.skip(1).skip(k) =~= name.skip(k + 1));
        assert(before =~= name.subrange(0, before.len() as int)) by {
            assert forall|i: int| 0 <= i < before.len() implies before[i] == name[i] by {
                if i > 0 {
                    assert(rest[i - 1] == name.skip(1)[i - 1]);
                }
            }
        }
        k + 1
    }
}

/// The refusal of a package that is not listed names the package.
pub proof fn law_refusal_members(name: Seq<char>)
    ensures
        ({
            let reply = not_allowed(name);
            &&& reply.status == 403
            &&& reply.headers == seq![("content-type"@, "application/json"@)]
            &&& reply.body matches crate::reply::BodyView::Json(body)
            &&& body.get("error"@) == Some(JsonView::Str("Package not allowed"@))
            &&& body.get("package"@) == Some(JsonView::Str(name))
        }),
{
    reveal_strlit("error");
    reveal_strlit("package");
    reveal_strlit("message");
    assert("error"@.len() == 5 && "package"@.len() == 7 && "message"@.len() == 7);
    assert("package"@[0] == 'p' && "message"@[0] == 'm');
    crate::json::lemma_puts();
    assert(not_allowed(name).headers =~= seq![("content-type"@, "application/json"@)]);
}

} // verus!
