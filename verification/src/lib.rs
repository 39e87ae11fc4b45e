//! ProxyCat: a verified core for a desktop helper that manages the host
//! operating system's proxy auto-configuration (PAC) setting.
//!
//! The library holds the configuration document and its mutators, the PAC
//! script generator, the external-PAC extraction and rewrite pipeline, the
//! JSON persistence codec, the settings store, and the reconciler's decision
//! logic.  Network, file and OS plumbing live outside the library and hand
//! plain values in.

pub mod codec;
pub mod errors;
pub mod extract;
pub mod logging;
pub mod pac;
pub mod pac_text;
pub mod pac_urls;
pub mod proxy_config;
pub mod reconcile;
pub mod settings;
pub mod strutil;
