use delay_mirror::config::Config;


#[test]
fn test_default_config_values() {
    let config = Config::default();
    assert_eq!(config.delay_days, 3);
    assert_eq!(config.npm_registry, "https://registry.npmmirror.com");
    assert_eq!(
        config.npm_download_registry,
        "https://registry.npmjs.org"
    );
    assert_eq!(
        config.gomod_registry,
        "https://mirrors.aliyun.com/goproxy"
    );
    assert_eq!(
        config.gomod_download_registry,
        "https://proxy.golang.org"
    );
    assert_eq!(config.pypi_registry, "https://pypi.org/simple/");
    assert_eq!(config.pypi_simple_index, "https://pypi.org/simple");
    assert_eq!(config.pypi_json_api_base, "https://pypi.org/pypi");
    assert_eq!(
        config.pypi_download_base,
        "https://files.pythonhosted.org/packages"
    );
    assert_eq!(
        config.pypi_download_mirror,
        "https://mirrors.aliyun.com/pypi/packages"
    );
    assert!(!config.allowlist_enabled);
    assert!(!config.debug_mode);
    assert!(config.pypi_filter_mode.is_none());
}

#[test]
fn test_from_env_vars_empty() {
    let config = Config::from_env_vars(|_| None);
    // Should match defaults when no env vars set
    assert_eq!(config.delay_days, 3);
    assert_eq!(config.npm_registry, "https://registry.npmmirror.com");
    assert!(!config.allowlist_enabled);
    assert!(!config.debug_mode);
}

#[test]
fn test_from_env_vars_delay_days() {
    let config = Config::from_env_vars(|key| match key {
        "DELAY_DAYS" => Some("7".to_string()),
        _ => None,
    });
    assert_eq!(config.delay_days, 7);
}

#[test]
fn test_from_env_vars_delay_days_invalid() {
    let config = Config::from_env_vars(|key| match key {
        "DELAY_DAYS" => Some("not_a_number".to_string()),
        _ => None,
    });
    // Falls back to default
    assert_eq!(config.delay_days, 3);
}

#[test]
fn test_from_env_vars_npm_registry() {
    let config = Config::from_env_vars(|key| match key {
        "NPM_REGISTRY" => Some("https://custom.registry.com".to_string()),
        _ => None,
    });
    assert_eq!(config.npm_registry, "https://custom.registry.com");
}

#[test]
fn test_from_env_vars_npm_download_registry() {
    let config = Config::from_env_vars(|key| match key {
        "NPM_DOWNLOAD_REGISTRY" => Some("https://download.registry.com".to_string()),
        _ => None,
    });
    assert_eq!(
        config.npm_download_registry,
        "https://download.registry.com"
    );
}

#[test]
fn test_from_env_vars_gomod_registries() {
    let config = Config::from_env_vars(|key| match key {
        "GOMOD_REGISTRY" => Some("https://custom.goproxy.com".to_string()),
        "GOMOD_DOWNLOAD_REGISTRY" => Some("https://custom.download.com".to_string()),
        _ => None,
    });
    assert_eq!(config.gomod_registry, "https://custom.goproxy.com");
    assert_eq!(
        config.gomod_download_registry,
        "https://custom.download.com"
    );
}

#[test]
fn test_from_env_vars_pypi_settings() {
    let config = Config::from_env_vars(|key| match key {
        "PYPI_SIMPLE_INDEX" => Some("https://custom.pypi.org/simple".to_string()),
        "PYPI_JSON_API_BASE" => Some("https://custom.pypi.org/pypi".to_string()),
        "PYPI_DOWNLOAD_BASE" => Some("https://custom.files.org".to_string()),
        "PYPI_DOWNLOAD_MIRROR" => Some("https://custom.mirror.org".to_string()),
        _ => None,
    });
    assert_eq!(
        config.pypi_simple_index,
        "https://custom.pypi.org/simple"
    );
    assert_eq!(
        config.pypi_json_api_base,
        "https://custom.pypi.org/pypi"
    );
    assert_eq!(config.pypi_download_base, "https://custom.files.org");
    assert_eq!(
        config.pypi_download_mirror,
        "https://custom.mirror.org"
    );
}

#[test]
fn test_from_env_vars_pypi_registry_fallback() {
    // PYPI_REGISTRY should also set pypi_simple_index if PYPI_SIMPLE_INDEX not set
    let config = Config::from_env_vars(|key| match key {
        "PYPI_REGISTRY" => Some("https://fallback.pypi.org/simple/".to_string()),
        _ => None,
    });
    assert_eq!(
        config.pypi_simple_index,
        "https://fallback.pypi.org/simple/"
    );
}

#[test]
fn test_from_env_vars_pypi_simple_index_priority() {
    // PYPI_SIMPLE_INDEX takes priority over PYPI_REGISTRY
    let config = Config::from_env_vars(|key| match key {
        "PYPI_SIMPLE_INDEX" => Some("https://primary.pypi.org/simple".to_string()),
        "PYPI_REGISTRY" => Some("https://fallback.pypi.org/simple/".to_string()),
        _ => None,
    });
    assert_eq!(
        config.pypi_simple_index,
        "https://primary.pypi.org/simple"
    );
}

#[test]
fn test_from_env_vars_allowlist_enabled_true() {
    let config = Config::from_env_vars(|key| match key {
        "ALLOWLIST_ENABLED" => Some("true".to_string()),
        _ => None,
    });
    assert!(config.allowlist_enabled);
}

#[test]
fn test_from_env_vars_allowlist_enabled_one() {
    let config = Config::from_env_vars(|key| match key {
        "ALLOWLIST_ENABLED" => Some("1".to_string()),
        _ => None,
    });
    assert!(config.allowlist_enabled);
}

#[test]
fn test_from_env_vars_allowlist_enabled_false() {
    let config = Config::from_env_vars(|key| match key {
        "ALLOWLIST_ENABLED" => Some("false".to_string()),
        _ => None,
    });
    assert!(!config.allowlist_enabled);
}

#[test]
fn test_from_env_vars_allowlist_enabled_random() {
    let config = Config::from_env_vars(|key| match key {
        "ALLOWLIST_ENABLED" => Some("random".to_string()),
        _ => None,
    });
    assert!(!config.allowlist_enabled);
}

#[test]
fn test_from_env_vars_debug_mode() {
    let config = Config::from_env_vars(|key| match key {
        "DEBUG_MODE" => Some("true".to_string()),
        _ => None,
    });
    assert!(config.debug_mode);
}

#[test]
fn test_from_env_vars_pypi_filter_mode() {
    let config = Config::from_env_vars(|key| match key {
        "PYPI_FILTER_MODE" => Some("strict".to_string()),
        _ => None,
    });
    assert_eq!(config.pypi_filter_mode, Some("strict".to_string()));
}

#[test]
fn test_from_env_vars_pypi_filter_mode_empty() {
    let config = Config::from_env_vars(|key| match key {
        "PYPI_FILTER_MODE" => Some("".to_string()),
        _ => None,
    });
    assert!(config.pypi_filter_mode.is_none());
}

#[test]
fn test_gomod_base_url_trailing_slash() {
    let config = Config::from_env_vars(|key| match key {
        "GOMOD_REGISTRY" => Some("https://proxy.golang.org/".to_string()),
        _ => None,
    });
    assert_eq!(config.gomod_base_url(), "https://proxy.golang.org");
}

#[test]
fn test_gomod_base_url_no_trailing_slash() {
    let config = Config::from_env_vars(|key| match key {
        "GOMOD_REGISTRY" => Some("https://proxy.golang.org".to_string()),
        _ => None,
    });
    assert_eq!(config.gomod_base_url(), "https://proxy.golang.org");
}

#[test]
fn test_gomod_download_base_url_trailing_slash() {
    let config = Config::from_env_vars(|key| match key {
        "GOMOD_DOWNLOAD_REGISTRY" => Some("https://download.golang.org/".to_string()),
        _ => None,
    });
    assert_eq!(
        config.gomod_download_base_url(),
        "https://download.golang.org"
    );
}

#[test]
fn test_gomod_meta_url() {
    let config = Config::from_env_vars(|key| match key {
        "GOMOD_REGISTRY" => Some("https://proxy.golang.org".to_string()),
        _ => None,
    });
    let url = config.gomod_meta_url("github.com/gin-gonic/gin", "/@v/list");
    assert_eq!(
        url,
        "https://proxy.golang.org/github.com/gin-gonic/gin/@v/list"
    );
}

#[test]
fn test_gomod_download_url() {
    let config = Config::from_env_vars(|key| match key {
        "GOMOD_DOWNLOAD_REGISTRY" => Some("https://dl.golang.org".to_string()),
        _ => None,
    });
    let url = config.gomod_download_url(
        "github.com/gin-gonic/!gin",
        "/@v/v1.9.1.zip",
    );
    assert_eq!(
        url,
        "https://dl.golang.org/github.com/gin-gonic/!gin/@v/v1.9.1.zip"
    );
}

#[test]
fn test_from_env_vars_multiple_overrides() {
    let config = Config::from_env_vars(|key| match key {
        "DELAY_DAYS" => Some("14".to_string()),
        "NPM_REGISTRY" => Some("https://npm.example.com".to_string()),
        "DEBUG_MODE" => Some("1".to_string()),
        "ALLOWLIST_ENABLED" => Some("true".to_string()),
        "PYPI_FILTER_MODE" => Some("strict".to_string()),
        _ => None,
    });
    assert_eq!(config.delay_days, 14);
    assert_eq!(config.npm_registry, "https://npm.example.com");
    assert!(config.debug_mode);
    assert!(config.allowlist_enabled);
    assert_eq!(config.pypi_filter_mode, Some("strict".to_string()));
    // Non-overridden values keep defaults
    assert_eq!(
        config.gomod_registry,
        "https://mirrors.aliyun.com/goproxy"
    );
}

#[test]
fn a_single_source_serves_downloads_too() {
    let config = Config::from_env_vars(|key| match key {
        "NPM_REGISTRY" => Some("https://npm.example".to_string()),
        "GOMOD_REGISTRY" => Some("https://go.example".to_string()),
        _ => None,
    });
    assert_eq!(config.npm_download_registry, "https://npm.example");
    assert_eq!(config.gomod_download_registry, "https://go.example");
    let config = Config::from_env_vars(|key| match key {
        "NPM_REGISTRY" => Some("https://npm.example".to_string()),
        "NPM_DOWNLOAD_REGISTRY" => Some("https://files.example".to_string()),
        _ => None,
    });
    assert_eq!(config.npm_registry, "https://npm.example");
    assert_eq!(config.npm_download_registry, "https://files.example");
    assert_eq!(config.gomod_download_registry, "https://proxy.golang.org");
}
