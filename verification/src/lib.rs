//! phpick: per-project PHP version routing for `composer` and `php`.
//!
//! The verified core: reading the PHP version a project pins, finding the
//! matching binary among the installers' locations, deciding about self-updates
//! and the daily update check, and editing the Windows user `PATH`.
pub mod calendar;
pub mod cli;
pub mod decimal;
pub mod discover;
pub mod http;
pub mod json;
pub mod project;
pub mod text;
pub mod update;
pub mod version;
pub mod windows_setup;
