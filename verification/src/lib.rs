//! The decisions behind a web desktop for Linux servers: which applications may
//! be installed and how, what reaches a container and what never does, how an
//! app's answers are rewritten on their way through the proxy, and what the
//! host's service manager is asked to do.

pub mod text;
pub mod table;
pub mod catalog;
pub mod engine;
pub mod proxy;
pub mod apps;
pub mod rfb;
pub mod systemd;
pub mod auth;
pub mod deps;
pub mod flatpak;
pub mod update;
pub mod web;
pub mod proto;
