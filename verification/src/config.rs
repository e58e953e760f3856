//! Settings, read from environment variables.

use vstd::prelude::*;
use vstd::string::StringExecFns;

use crate::text;

verus! {

/// The settings of the mirror.
pub struct Config {
    pub delay_days: i64,
    pub npm_registry: String,
    pub npm_download_registry: String,
    pub gomod_registry: String,
    pub gomod_download_registry: String,
    pub pypi_registry: String,
    pub pypi_simple_index: String,
    pub pypi_json_api_base: String,
    pub pypi_download_base: String,
    pub pypi_download_mirror: String,
    pub allowlist_enabled: bool,
    pub debug_mode: bool,
    pub pypi_filter_mode: Option<String>,
}

/// The environment variables that settings are read from.
pub struct EnvVars {
    pub delay_days: Option<String>,
    pub npm_registry: Option<String>,
    pub npm_download_registry: Option<String>,
    pub gomod_registry: Option<String>,
    pub gomod_download_registry: Option<String>,
    pub pypi_registry: Option<String>,
    pub pypi_simple_index: Option<String>,
    pub pypi_json_api_base: Option<String>,
    pub pypi_download_base: Option<String>,
    pub pypi_download_mirror: Option<String>,
    pub allowlist_enabled: Option<String>,
    pub debug_mode: Option<String>,
    pub pypi_filter_mode: Option<String>,
}

impl EnvVars {
    /// Whether each variable is what `get_var` answers for its name.
    pub open spec fn answered_by<F: Fn(&str) -> Option<String>>(self, get_var: F) -> bool {
        &&& call_ensures(get_var, ("DELAY_DAYS",), self.delay_days)
        &&& call_ensures(get_var, ("NPM_REGISTRY",), self.npm_registry)
        &&& call_ensures(get_var, ("NPM_DOWNLOAD_REGISTRY",), self.npm_download_registry)
        &&& call_ensures(get_var, ("GOMOD_REGISTRY",), self.gomod_registry)
        &&& call_ensures(get_var, ("GOMOD_DOWNLOAD_REGISTRY",), self.gomod_download_registry)
        &&& call_ensures(get_var, ("PYPI_REGISTRY",), self.pypi_registry)
        &&& call_ensures(get_var, ("PYPI_SIMPLE_INDEX",), self.pypi_simple_index)
        &&& call_ensures(get_var, ("PYPI_JSON_API_BASE",), self.pypi_json_api_base)
        &&& call_ensures(get_var, ("PYPI_DOWNLOAD_BASE",), self.pypi_download_base)
        &&& call_ensures(get_var, ("PYPI_DOWNLOAD_MIRROR",), self.pypi_download_mirror)
        &&& call_ensures(get_var, ("ALLOWLIST_ENABLED",), self.allowlist_enabled)
        &&& call_ensures(get_var, ("DEBUG_MODE",), self.debug_mode)
        &&& call_ensures(get_var, ("PYPI_FILTER_MODE",), self.pypi_filter_mode)
    }
}

/// The text of a variable, or else a default.
pub open spec fn var_or(var: Option<String>, default: Seq<char>) -> Seq<char> {
    match var {
        Some(s) => s@,
        None => default,
    }
}

/// Whether a variable is set to yes.
pub open spec fn var_is_on(var: Option<String>) -> bool {
    match var {
        Some(s) => s@ == "true"@ || s@ == "1"@,
        None => false,
    }
}

impl Config {
    /// Whether these are the settings that the given variables make.
    pub open spec fn set_by(self, vars: EnvVars) -> bool {
        &&& self.delay_days == (match vars.delay_days {
            Some(s) => match text::as_i64(s@) {
                Some(n) => n,
                None => 3,
            },
            None => 3,
        })
        &&& self.npm_registry@ == var_or(vars.npm_registry, "https://registry.npmmirror.com"@)
        &&& self.npm_download_registry@ == var_or(
            vars.npm_download_registry,
            var_or(vars.npm_registry, "https://registry.npmjs.org"@),
        )
        &&& self.gomod_registry@ == var_or(
            vars.gomod_registry,
            "https://mirrors.aliyun.com/goproxy"@,
        )
        &&& self.gomod_download_registry@ == var_or(
            vars.gomod_download_registry,
            var_or(vars.gomod_registry, "https://proxy.golang.org"@),
        )
        &&& self.pypi_registry@ == var_or(vars.pypi_registry, "https://pypi.org/simple/"@)
        &&& self.pypi_simple_index@ == var_or(
            vars.pypi_simple_index,
            var_or(vars.pypi_registry, "https://pypi.org/simple"@),
        )
        &&& self.pypi_json_api_base@ == var_or(
            vars.pypi_json_api_base,
            "https://pypi.org/pypi"@,
        )
        &&& self.pypi_download_base@ == var_or(
            vars.pypi_download_base,
            "https://files.pythonhosted.org/packages"@,
        )
        &&& self.pypi_download_mirror@ == var_or(
            vars.pypi_download_mirror,
            "https://mirrors.aliyun.com/pypi/packages"@,
        )
        &&& self.allowlist_enabled == var_is_on(vars.allowlist_enabled)
        &&& self.debug_mode == var_is_on(vars.debug_mode)
        &&& match self.pypi_filter_mode {
            Some(mode) => vars.pypi_filter_mode matches Some(s) && s@ == mode@ && s@.len() > 0,
            None => vars.pypi_filter_mode matches Some(s) ==> s@.len() == 0,
        }
    }

    /// Whether these are the settings that hold where no variable is set.
    pub open spec fn is_default(self) -> bool {
        self.set_by(
            EnvVars {
                delay_days: None,
                npm_registry: None,
                npm_download_registry: None,
                gomod_registry: None,
                gomod_download_registry: None,
                pypi_registry: None,
                pypi_simple_index: None,
                pypi_json_api_base: None,
                pypi_download_base: None,
                pypi_download_mirror: None,
                allowlist_enabled: None,
                debug_mode: None,
                pypi_filter_mode: None,
            },
        )
    }
}

fn string_or(var: Option<String>, default: &str) -> (r: String)
    ensures
        r@ == var_or(var, default@),
{
    match var {
        Some(s) => s,
        None => default.to_owned(),
    }
}

fn first_set(var: &Option<String>, other: &Option<String>, default: &str) -> (r: String)
    ensures
        r@ == var_or(*var, var_or(*other, default@)),
{
    match var {
        Some(s) => s.clone(),
        None => match other {
            Some(s) => s.clone(),
            None => default.to_owned(),
        },
    }
}

fn is_on(var: &Option<String>) -> (r: bool)
    ensures
        r == var_is_on(*var),
{
    match var {
        Some(s) => text::same(s.as_str(), "true") || text::same(s.as_str(), "1"),
        None => false,
    }
}

impl Default for Config {
    fn default() -> (r: Self)
        ensures
            r.is_default(),
    {
        Config::from_vars(
            EnvVars {
                delay_days: None,
                npm_registry: None,
                npm_download_registry: None,
                gomod_registry: None,
                gomod_download_registry: None,
                pypi_registry: None,
                pypi_simple_index: None,
                pypi_json_api_base: None,
                pypi_download_base: None,
                pypi_download_mirror: None,
                allowlist_enabled: None,
                debug_mode: None,
                pypi_filter_mode: None,
            },
        )
    }
}

impl Config {
    /// The settings that the given variables make.
    pub fn from_vars(vars: EnvVars) -> (r: Self)
        ensures
            r.set_by(vars),
    {
        let delay_days: i64 = match &vars.delay_days {
            Some(s) => match text::parse_i64(s.as_str()) {
                Some(n) => n,
                None => 3,
            },
            None => 3,
        };
        let simple_index = first_set(
            &vars.pypi_simple_index,
            &vars.pypi_registry,
            "https://pypi.org/simple",
        );
        let npm_download_registry = first_set(
            &vars.npm_download_registry,
            &vars.npm_registry,
            "https://registry.npmjs.org",
        );
        let gomod_download_registry = first_set(
            &vars.gomod_download_registry,
            &vars.gomod_registry,
            "https://proxy.golang.org",
        );
        let filter_mode = match vars.pypi_filter_mode {
            Some(s) => if s.as_str().is_empty() {
                None
            } else {
                Some(s)
            },
            None => None,
        };
        Config {
            delay_days,
            npm_registry: string_or(vars.npm_registry, "https://registry.npmmirror.com"),
            npm_download_registry,
            gomod_registry: string_or(vars.gomod_registry, "https://mirrors.aliyun.com/goproxy"),
            gomod_download_registry,
            pypi_simple_index: simple_index,
            pypi_registry: string_or(vars.pypi_registry, "https://pypi.org/simple/"),
            pypi_json_api_base: string_or(vars.pypi_json_api_base, "https://pypi.org/pypi"),
            pypi_download_base: string_or(
                vars.pypi_download_base,
                "https://files.pythonhosted.org/packages",
            ),
            pypi_download_mirror: string_or(
                vars.pypi_download_mirror,
                "https://mirrors.aliyun.com/pypi/packages",
            ),
            allowlist_enabled: is_on(&vars.allowlist_enabled),
            debug_mode: is_on(&vars.debug_mode),
            pypi_filter_mode: filter_mode,
        }
    }

    /// The settings that the variables make which `get_var` answers for.
    pub fn from_env_vars(get_var: impl Fn(&str) -> Option<String>) -> (r: Self)
        requires
            forall|name: &str| call_requires(get_var, (name,)),
        ensures
            exists|vars: EnvVars| #[trigger] vars.answered_by(get_var) && r.set_by(vars),
    {
        let vars = EnvVars {
            delay_days: get_var("DELAY_DAYS"),
            npm_registry: get_var("NPM_REGISTRY"),
            npm_download_registry: get_var("NPM_DOWNLOAD_REGISTRY"),
            gomod_registry: get_var("GOMOD_REGISTRY"),
            gomod_download_registry: get_var("GOMOD_DOWNLOAD_REGISTRY"),
            pypi_registry: get_var("PYPI_REGISTRY"),
            pypi_simple_index: get_var("PYPI_SIMPLE_INDEX"),
            pypi_json_api_base: get_var("PYPI_JSON_API_BASE"),
            pypi_download_base: get_var("PYPI_DOWNLOAD_BASE"),
            pypi_download_mirror: get_var("PYPI_DOWNLOAD_MIRROR"),
            allowlist_enabled: get_var("ALLOWLIST_ENABLED"),
            debug_mode: get_var("DEBUG_MODE"),
            pypi_filter_mode: get_var("PYPI_FILTER_MODE"),
        };
        proof {
            assert(vars.answered_by(get_var));
        }
        Config::from_vars(vars)
    }

    /// The address of the Go module proxy, without a slash at its end.
    pub fn gomod_base_url(&self) -> (r: &str)
        ensures
            r@ == text::trim_end(self.gomod_registry@, '/'),
    {
        text::trim_end_char(self.gomod_registry.as_str(), '/')
    }

    /// The address that Go modules are downloaded from, without a slash at its
    /// end.
    pub fn gomod_download_base_url(&self) -> (r: &str)
        ensures
            r@ == text::trim_end(self.gomod_download_registry@, '/'),
    {
        text::trim_end_char(self.gomod_download_registry.as_str(), '/')
    }

    /// The address of what `path` names of a module, for its metadata.
    pub open spec fn meta_url(self, escaped_module: Seq<char>, path: Seq<char>) -> Seq<char> {
        text::trim_end(self.gomod_registry@, '/') + "/"@ + escaped_module + path
    }

    /// The address of what `path` names of a module, for download.
    pub open spec fn download_url(self, escaped_module: Seq<char>, path: Seq<char>) -> Seq<char> {
        text::trim_end(self.gomod_download_registry@, '/') + "/"@ + escaped_module + path
    }

    /// The address of what `path` names of a module, for its metadata.
    pub fn gomod_meta_url(&self, escaped_module: &str, path: &str) -> (r: String)
        ensures
            r@ == self.meta_url(escaped_module@, path@),
    {
        self.gomod_base_url().to_owned().concat("/").concat(escaped_module).concat(path)
    }

    /// The address of what `path` names of a module, for download.
    pub fn gomod_download_url(&self, escaped_module: &str, path: &str) -> (r: String)
        ensures
            r@ == self.download_url(escaped_module@, path@),
    {
        self.gomod_download_base_url().to_owned().concat("/").concat(escaped_module).concat(path)
    }
}

/// Packages and modules are downloaded from where their metadata comes from, as
/// long as no other address is set for downloads.
pub proof fn law_single_source(config: Config, vars: EnvVars)
    requires
        config.set_by(vars),
    ensures
        vars.npm_download_registry is None && vars.npm_registry is Some
            ==> config.npm_download_registry@ == config.npm_registry@,
        vars.gomod_download_registry is None && vars.gomod_registry is Some
            ==> config.gomod_download_registry@ == config.gomod_registry@,
{
}

/// A trimmed address ends in no slash, is where the address begins, and has only
/// slashes behind it; trimming it again changes nothing.
pub proof fn law_trimmed_url(url: Seq<char>)
    ensures
        ({
            let base = text::trim_end(url, '/');
            &&& base.len() > 0 ==> base.last() != '/'
            &&& base.is_prefix_of(url)
            &&& forall|i: int| base.len() <= i < url.len() ==> url[i] == '/'
            &&& text::trim_end(base, '/') == base
        }),
    decreases url.len(),
{
    if url.len() > 0 && url.last() == '/' {
        law_trimmed_url(url.drop_last());
        let base = text::trim_end(url, '/');
        assert(base.is_prefix_of(url)) by {
            assert(url.drop_last().subrange(0, base.len() as int) =~= url.subrange(
                0,
                base.len() as int,
            ));
        }
        assert forall|i: int| base.len() <= i < url.len() implies url[i] == '/' by {
            if i < url.len() - 1 {
                assert(url.drop_last()[i] == url[i]);
            }
        }
    } else {
        assert(url.subrange(0, url.len() as int) =~= url);
    }
}

/// Every variable that is set is taken as it is.
pub proof fn law_set_variables(config: Config, vars: EnvVars)
    requires
        config.set_by(vars),
    ensures
        vars.npm_registry matches Some(s) ==> config.npm_registry@ == s@,
        vars.npm_download_registry matches Some(s) ==> config.npm_download_registry@ == s@,
        vars.gomod_registry matches Some(s) ==> config.gomod_registry@ == s@,
        vars.gomod_download_registry matches Some(s) ==> config.gomod_download_registry@ == s@,
        vars.pypi_registry matches Some(s) ==> config.pypi_registry@ == s@,
        vars.pypi_simple_index matches Some(s) ==> config.pypi_simple_index@ == s@,
        vars.pypi_json_api_base matches Some(s) ==> config.pypi_json_api_base@ == s@,
        vars.pypi_download_base matches Some(s) ==> config.pypi_download_base@ == s@,
        vars.pypi_download_mirror matches Some(s) ==> config.pypi_download_mirror@ == s@,
        vars.pypi_simple_index is None && vars.pypi_registry is Some
            ==> config.pypi_simple_index@ == config.pypi_registry@,
        vars.pypi_filter_mode matches Some(s) ==> (s@.len() > 0
            ==> config.pypi_filter_mode is Some && config.pypi_filter_mode->0@ == s@),
        vars.pypi_filter_mode matches Some(s) ==> (s@.len() == 0
            ==> config.pypi_filter_mode is None),
        vars.pypi_filter_mode is None ==> config.pypi_filter_mode is None,
{
}

/// A number of days that is set, negative or not, is taken; without one, or with a text
/// that is no number, it is three.
pub proof fn law_delay_days(config: Config, vars: EnvVars, n: i64)
    requires
        config.set_by(vars),
    ensures
        vars.delay_days matches Some(s) ==> (s@ == text::decimal(n as int) ==> config.delay_days
            == n),
        vars.delay_days matches Some(s) ==> (s@.len() == 0 ==> config.delay_days == 3),
        vars.delay_days is None ==> config.delay_days == 3,
{
    text::law_decimal_round_trip(n);
}

/// A switch is on exactly if it is set to the word true or to the digit one.
pub proof fn law_switches(config: Config, vars: EnvVars)
    requires
        config.set_by(vars),
    ensures
        config.debug_mode <==> vars.debug_mode is Some && (vars.debug_mode->0@ == seq![
            't',
            'r',
            'u',
            'e',
        ] || vars.debug_mode->0@ == seq!['1']),
        config.allowlist_enabled <==> vars.allowlist_enabled is Some && (vars.allowlist_enabled->0@
            == seq!['t', 'r', 'u', 'e'] || vars.allowlist_enabled->0@ == seq!['1']),
{
    reveal_strlit("true");
    reveal_strlit("1");
    assert("true"@ =~= seq!['t', 'r', 'u', 'e']);
    assert("1"@ =~= seq!['1']);
}

/// An address below a registry has one slash behind the registry, however many the
/// registry ends in.
pub proof fn law_module_addresses(config: Config, base: Seq<char>, module: Seq<char>, path: Seq<char>)
    requires
        base.len() > 0 ==> base.last() != '/',
    ensures
        config.gomod_registry@ == base || config.gomod_registry@ == base.push('/')
            ==> config.meta_url(module, path) == base + "/"@ + module + path,
        config.gomod_download_registry@ == base || config.gomod_download_registry@ == base.push('/')
            ==> config.download_url(module, path) == base + "/"@ + module + path,
{
    assert(base.push('/').drop_last() =~= base);
    assert(text::trim_end(base, '/') == base);
    assert(text::trim_end(base.push('/'), '/') == base);
}

/// What is not set has its default.
pub proof fn law_defaults(config: Config, vars: EnvVars)
    requires
        config.set_by(vars),
    ensures
        vars.npm_registry is None ==> config.npm_registry@ == "https://registry.npmmirror.com"@,
        vars.npm_registry is None && vars.npm_download_registry is None
            ==> config.npm_download_registry@ == "https://registry.npmjs.org"@,
        vars.gomod_registry is None ==> config.gomod_registry@
            == "https://mirrors.aliyun.com/goproxy"@,
        vars.gomod_registry is None && vars.gomod_download_registry is None
            ==> config.gomod_download_registry@ == "https://proxy.golang.org"@,
        vars.pypi_registry is None ==> config.pypi_registry@ == "https://pypi.org/simple/"@,
        vars.pypi_registry is None && vars.pypi_simple_index is None
            ==> config.pypi_simple_index@ == "https://pypi.org/simple"@,
        vars.pypi_json_api_base is None ==> config.pypi_json_api_base@ == "https://pypi.org/pypi"@,
        vars.pypi_download_base is None ==> config.pypi_download_base@
            == "https://files.pythonhosted.org/packages"@,
        vars.pypi_download_mirror is None ==> config.pypi_download_mirror@
            == "https://mirrors.aliyun.com/pypi/packages"@,
{
}

} // verus!
