//! The rules of a proxy switcher for a proxy-chaining configuration:
//! rewriting the configuration text, keeping the list of custom proxies,
//! reading the fields of a geolocation answer, and choosing what a command
//! line asks for.

pub mod cli;
pub mod config;
pub mod custom;
pub mod geo;
pub mod paths;
pub mod text;
