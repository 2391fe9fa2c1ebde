//! Shell-initialisation generator: module detection, dependency ordering,
//! token resolution and dialect-specific emission.

pub mod text;
pub mod config;
pub mod error;
pub mod deps;
pub mod varmap;
pub mod context;
pub mod resolve;
pub mod quote;
pub mod emit;
pub mod envorder;
pub mod outside;
pub mod detect;
pub mod runtime;
pub mod activate;
pub mod orchestrate;
pub mod version;
pub mod groups;
pub mod builder;
pub mod cli;
pub mod report;

pub use config::{Config, Platform, Shell};
pub use context::ContextEnv;
pub use deps::{
    module_key, normalize_require_key, normalize_requires_list, requires_satisfied,
    topo_sort_group, ActiveSet, DepNode,
};
pub use emit::Emitter;
pub use error::Error;
pub use groups::{emit_global, emit_hooks};
pub use resolve::Resolver;
pub use runtime::{emit_env_delta, RuntimeEnv};
pub use varmap::VarMap;
