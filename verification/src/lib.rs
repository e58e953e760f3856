//! A delaying mirror for NPM, Go module and PyPI registries: releases younger
//! than a configured number of days are withheld.

pub mod allowlist;
pub mod cache;
pub mod config;
pub mod delay_check;
pub mod delay_logger;
pub mod digest;
pub mod fetch;
pub mod gomod;
pub mod http;
pub mod json;
pub mod names;
pub mod npm;
pub mod pattern;
pub mod pypi;
pub mod pypi_handler;
pub mod reply;
pub mod router;
pub mod server;
pub mod text;
pub mod timestamp;

pub use allowlist::{AllowlistConfig, AllowlistManager};
pub use cache::PackageMetadata;
pub use config::Config;
pub use delay_check::{DelayCheckError, DelayChecker, VersionCheckResult};
pub use delay_logger::{DelayAction, DelayLogEntry, DelayLogger, PackageType};
pub use http::{HttpError, HttpRequest, HttpResponse};
pub use router::route_request;
