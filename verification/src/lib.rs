//! Core of a toolchain multiplexer and installer.
//!
//! The library decides, for an invoked proxy binary name, which installed
//! toolchain component should run (`dispatch`), and drives the
//! fetch/verify/unpack/commit lifecycle that adds, updates or removes a
//! toolchain (`manifest`, `fetch`, `diskio`, `orchestrator`), recording the
//! outcome in a durable settings value (`settings`).

pub mod strutil;
pub mod settings;
pub mod dispatch;
pub mod manifest;
pub mod fetch;
pub mod diskio;
pub mod orchestrator;

pub use dispatch::{component_for_bin, dup_tools, is_proxyable_tools, tools};
