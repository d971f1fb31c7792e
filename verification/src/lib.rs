//! Turns a resolved dependency graph into hash-pinned build records.

pub mod bindings;
pub mod build_info;
pub mod config;
pub mod derivation;
pub mod index;
pub mod lock;
pub mod metadata;
pub mod nix_build;
pub mod normalize_manifest;
pub mod prefetch;
pub mod prefetch_laws;
pub mod prune;
pub mod render;
pub mod resolve;
pub mod shortener;
pub mod sorted_map;
pub mod source;
pub mod target_cfg;
pub mod text;
pub mod util;
