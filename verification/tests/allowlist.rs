use delay_mirror::allowlist::{refusal, AllowlistConfig, AllowlistManager};
use delay_mirror::config::Config;
use delay_mirror::delay_logger::PackageType;
use delay_mirror::json::Json;
use delay_mirror::reply::Body;

#[test]
fn test_default_allowlist_allows_all() {
    let manager = AllowlistManager::from_config(AllowlistConfig::default());
    assert!(!manager.is_enabled());
    assert!(manager.is_allowed(&PackageType::Npm, "any-package"));
    assert!(manager.is_allowed(&PackageType::GoMod, "any-module"));
    assert!(manager.is_allowed(&PackageType::PyPI, "any-lib"));
}

#[test]
fn test_exact_match() {
    let config = AllowlistConfig {
        npm: Some(vec!["lodash".to_string(), "axios".to_string()]),
        gomod: None,
        pypi: None,
    };
    let manager = AllowlistManager::from_config(config);
    assert!(manager.is_enabled());
    assert!(manager.is_allowed(&PackageType::Npm, "lodash"));
    assert!(manager.is_allowed(&PackageType::Npm, "axios"));
    assert!(!manager.is_allowed(&PackageType::Npm, "react"));
    assert!(manager.is_allowed(&PackageType::GoMod, "anything"));
}

#[test]
fn test_wildcard_match() {
    let config = AllowlistConfig {
        npm: Some(vec!["react-*".to_string(), "@types/*".to_string()]),
        gomod: None,
        pypi: None,
    };
    let manager = AllowlistManager::from_config(config);
    assert!(manager.is_allowed(&PackageType::Npm, "react-dom"));
    assert!(manager.is_allowed(&PackageType::Npm, "react-router"));
    assert!(!manager.is_allowed(&PackageType::Npm, "react"));
    assert!(manager.is_allowed(&PackageType::Npm, "@types/node"));
    assert!(manager.is_allowed(&PackageType::Npm, "@types/react"));
}

#[test]
fn test_all_package_types() {
    let config = AllowlistConfig {
        npm: Some(vec!["lodash".to_string()]),
        gomod: Some(vec!["github.com/gin-gonic/gin".to_string()]),
        pypi: Some(vec!["requests".to_string()]),
    };
    let manager = AllowlistManager::from_config(config);
    assert!(manager.is_allowed(&PackageType::Npm, "lodash"));
    assert!(!manager.is_allowed(&PackageType::Npm, "axios"));
    assert!(manager.is_allowed(&PackageType::GoMod, "github.com/gin-gonic/gin"));
    assert!(!manager.is_allowed(&PackageType::GoMod, "github.com/foo/bar"));
    assert!(manager.is_allowed(&PackageType::PyPI, "requests"));
    assert!(!manager.is_allowed(&PackageType::PyPI, "numpy"));
}

#[test]
fn test_none_type_allows_all() {
    let config = AllowlistConfig {
        npm: Some(vec!["lodash".to_string()]),
        gomod: None,
        pypi: None,
    };
    let manager = AllowlistManager::from_config(config);
    assert!(manager.is_enabled());
    assert!(manager.is_allowed(&PackageType::GoMod, "anything-goes"));
    assert!(manager.is_allowed(&PackageType::PyPI, "anything-goes"));
}

#[test]
fn test_empty_list_same_as_none() {
    let config_with_empty = AllowlistConfig {
        npm: Some(vec![]),
        gomod: None,
        pypi: None,
    };
    let manager = AllowlistManager::from_config(config_with_empty);
    assert!(!manager.is_enabled());
}

#[test]
fn packages_that_are_not_listed_are_refused_where_the_lists_are_on() {
    let manager = AllowlistManager::from_config(AllowlistConfig {
        npm: Some(vec!["react-*".to_string()]),
        gomod: None,
        pypi: Some(vec!["requests".to_string()]),
    });
    let mut config = Config::default();
    assert_eq!(refusal(&config, &manager, PackageType::Npm, "vue"), None);
    config.allowlist_enabled = true;
    assert_eq!(refusal(&config, &manager, PackageType::Npm, "react-dom"), None);
    assert_eq!(refusal(&config, &manager, PackageType::GoMod, "vue"), None);
    assert!(refusal(&config, &manager, PackageType::PyPI, "numpy").is_some());
    let reply = refusal(&config, &manager, PackageType::Npm, "vue").unwrap();
    assert_eq!(reply.status, 403);
    let expected = Json::object()
        .put("error", Json::string("Package not allowed"))
        .put("package", Json::string("vue"))
        .put("message", Json::string("This package is not in the allowlist"));
    assert_eq!(reply.body, Body::Json(expected));
}
