//! Core engine of a C-project scaffolding tool: it keeps a TOML-like project
//! manifest and a generated build descriptor in sync as modules and git
//! dependencies are added.
//!
//! The library is organised around plain character sequences (`Vec<char>`):
//! - `text`: line splitting/joining and trimming primitives,
//! - `manifest`: the in-memory model of the project configuration,
//! - `codec`: loading the manifest and surgical dependency upserts,
//! - `injector`: marker-based insertion into the build descriptor,
//! - `naming`: package-name, module-name and header-guard derivation,
//! - `sync`: planning and reporting of dependency checkouts,
//! - `buildtool`: argument derivation for the external build tool.

pub mod text;
pub mod naming;
pub mod manifest;
pub mod injector;
pub mod codec;
pub mod sync;
pub mod buildtool;
pub mod scaffold;
pub mod toml_api;
pub mod loader;
